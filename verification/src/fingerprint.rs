use vstd::prelude::*;

verus! {

/// Width in bits of the persisted fingerprint storage.
pub const FINGERPRINT_SIZE: usize = 512;

/// A fixed-width bit vector summarizing the hashed substructures of a
/// molecule.  The storage is eight 64-bit blocks, least significant bit
/// first within each block.
#[derive(Debug)]
pub struct Fingerprint(pub Vec<u64>);

/// The 512 bits carried by a block sequence, least significant first.
pub open spec fn spec_bits_of(blocks: Seq<u64>) -> Seq<bool> {
    Seq::new(512, |i: int| (blocks[i / 64] >> ((i % 64) as u64)) & 1u64 == 1u64)
}

impl View for Fingerprint {
    type V = Seq<bool>;

    open spec fn view(&self) -> Seq<bool> {
        spec_bits_of(self.0@)
    }
}

impl Fingerprint {
    /// The storage always holds exactly eight blocks.
    pub open spec fn wf(self) -> bool {
        self.0@.len() == 8
    }

    /// An all-zero fingerprint.
    pub fn new() -> (r: Fingerprint)
        ensures
            r.wf(),
            r@ == Seq::new(512, |i: int| false),
            r.0@ == Seq::new(8, |i: int| 0u64),
    {
        let mut blocks: Vec<u64> = Vec::new();
        let mut k: usize = 0;
        while k < 8
            invariant
                k <= 8,
                blocks@.len() == k,
                forall|j: int| 0 <= j < k ==> blocks@[j] == 0u64,
            decreases 8 - k,
        {
            blocks.push(0u64);
            k += 1;
        }
        let r = Fingerprint(blocks);
        proof {
            assert(forall|s: u64| s < 64 ==> (0u64 >> s) & 1u64 == 0u64) by (bit_vector);
            assert(r@ =~= Seq::new(512, |i: int| false));
            assert(r.0@ =~= Seq::new(8, |i: int| 0u64));
        }
        r
    }

    /// Reads bit `i`.
    pub fn get_bit(&self, i: usize) -> (r: bool)
        requires
            i < 512,
            self.wf(),
        ensures
            r == self@[i as int],
    {
        let b = i / 64;
        let s = (i % 64) as u64;
        (self.0[b] >> s) & 1u64 == 1u64
    }

    /// Sets bit `i`.
    pub fn set_bit(&mut self, i: usize)
        requires
            i < 512,
            old(self).wf(),
        ensures
            final(self).wf(),
            final(self)@ == old(self)@.update(i as int, true),
            final(self).0@ == old(self).0@.update(
                i as int / 64,
                old(self).0@[i as int / 64] | (1u64 << ((i as int % 64) as u64)),
            ),
    {
        let b = i / 64;
        let s = (i % 64) as u64;
        let v = self.0[b];
        let w = v | (1u64 << s);
        self.0.set(b, w);
        proof {
            assert(forall|v: u64, s: u64, t: u64|
                s < 64 && t < 64 ==> ((v | (1u64 << s)) >> t) & 1u64 == (if s == t {
                    1u64
                } else {
                    (v >> t) & 1u64
                })) by (bit_vector);
            assert forall|j: int| 0 <= j < 512 implies final(self)@[j] == old(self)@.update(
                i as int,
                true,
            )[j] by {
                if j / 64 == b {
                    assert(((v | (1u64 << s)) >> ((j % 64) as u64)) & 1u64 == (if s == (j
                        % 64) as u64 {
                        1u64
                    } else {
                        (v >> ((j % 64) as u64)) & 1u64
                    }));
                    if j == i {
                        assert(s == (j % 64) as u64);
                    } else {
                        assert(s != (j % 64) as u64);
                    }
                }
            }
            assert(final(self)@ =~= old(self)@.update(i as int, true));
        }
    }

    /// The positions of the set bits, in ascending order.
    pub fn ones(&self) -> (r: Vec<usize>)
        requires
            self.wf(),
        ensures
            forall|i: int, j: int| 0 <= i < j < r@.len() ==> r@[i] < r@[j],
            forall|v: usize| r@.contains(v) <==> (v < 512 && self@[v as int]),
    {
        let mut r: Vec<usize> = Vec::new();
        let mut i: usize = 0;
        while i < 512
            invariant
                i <= 512,
                self.wf(),
                forall|p: int, q: int| 0 <= p < q < r@.len() ==> r@[p] < r@[q],
                forall|p: int| 0 <= p < r@.len() ==> r@[p] < i,
                forall|v: usize| r@.contains(v) <==> (v < i && self@[v as int]),
            decreases 512 - i,
        {
            let ghost prev = r@;
            if self.get_bit(i) {
                r.push(i);
                proof {
                    assert forall|w: usize| prev.contains(w) implies r@.contains(w) by {
                        let k = choose|k: int| 0 <= k < prev.len() && prev[k] == w;
                        assert(r@[k] == w);
                    }
                    assert(r@.contains(i)) by {
                        assert(r@[r@.len() - 1] == i);
                    }
                    assert forall|w: usize| #[trigger] r@.contains(w) implies prev.contains(w) || w
                        == i by {
                        let k = choose|k: int| 0 <= k < r@.len() && r@[k] == w;
                        if k < prev.len() {
                            assert(prev[k] == w);
                        }
                    }
                }
            }
            i += 1;
        }
        r
    }
}

} // verus!
