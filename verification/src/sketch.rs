use vstd::prelude::*;

use vstd::arithmetic::power2::pow2;

use crate::errors::BinaryCountSketchError;
use crate::errors::msg_incorrect_base_length;
use crate::errors::msg_incorrect_level;
use crate::errors::msg_incorrect_points;
use crate::errors::msg_incorrect_threshold;
use crate::errors::msg_incorrect_words_length;
use crate::item::Item;

verus! {

/// The mask selecting bit `b % 64` of a 64-bit word.
pub open spec fn mask_of(b: nat) -> u64 {
    1u64 << ((b % 64) as u64)
}

/// Whether bit `b` of the bit array `words` is set; bit `b` lives in word
/// `b / 64`.
pub open spec fn bit_set(words: Seq<u64>, b: nat) -> bool {
    words[(b / 64) as int] & mask_of(b) != 0
}

/// The bit array with bit `b` flipped.
pub open spec fn flip_bit(words: Seq<u64>, b: nat) -> Seq<u64> {
    words.update((b / 64) as int, words[(b / 64) as int] ^ mask_of(b))
}

/// The address of slot `i` of item `v` in a sketch of `bits` addressable
/// bits: the item's code for that slot, reduced modulo the bit count.
pub open spec fn addr_of<V: Item>(v: V, i: u64, bits: nat) -> nat {
    (v.code_spec(i) as nat) % bits
}

/// The bit array after toggling the addressed bits of slots `0 .. points` of
/// item `v`, in slot order.
pub open spec fn toggled<V: Item>(words: Seq<u64>, v: V, points: int, bits: nat) -> Seq<u64>
    decreases points,
{
    if points <= 0 {
        words
    } else {
        flip_bit(toggled(words, v, points - 1, bits), addr_of(v, (points - 1) as u64, bits))
    }
}

/// The membership score of item `v`: how many of its addressed bits over
/// slots `0 .. points` are set in `words`.
pub open spec fn score<V: Item>(words: Seq<u64>, v: V, points: int, bits: nat) -> nat
    decreases points,
{
    if points <= 0 {
        0
    } else {
        score(words, v, points - 1, bits) + if bit_set(
            words,
            addr_of(v, (points - 1) as u64, bits),
        ) {
            1nat
        } else {
            0nat
        }
    }
}

/// An all-zero bit array of `n` words.
pub open spec fn zero_words(n: nat) -> Seq<u64> {
    Seq::new(n, |i: int| 0u64)
}

/// The first `n` words of `old_words` XOR-folded into `acc` at indices
/// reduced modulo `acc.len()`.
pub open spec fn fold_words(acc: Seq<u64>, old_words: Seq<u64>, n: int) -> Seq<u64>
    decreases n,
{
    if n <= 0 {
        acc
    } else {
        let a = fold_words(acc, old_words, n - 1);
        let j = (n - 1) % (acc.len() as int);
        a.update(j, a[j] ^ old_words[n - 1])
    }
}

/// How many of the probes score at least `threshold`: the estimator's
/// false-positive count.
pub open spec fn false_pos_count<V: Item>(
    words: Seq<u64>,
    probes: Seq<V>,
    threshold: int,
    points: int,
    bits: nat,
) -> nat
    decreases probes.len(),
{
    if probes.len() == 0 {
        0
    } else {
        false_pos_count(words, probes.drop_last(), threshold, points, bits) + if score(
            words,
            probes.last(),
            points,
            bits,
        ) >= threshold {
            1nat
        } else {
            0nat
        }
    }
}

/// How many of the probes have `points - score < threshold`: the estimator's
/// false-negative count.
pub open spec fn false_neg_count<V: Item>(
    words: Seq<u64>,
    probes: Seq<V>,
    threshold: int,
    points: int,
    bits: nat,
) -> nat
    decreases probes.len(),
{
    if probes.len() == 0 {
        0
    } else {
        false_neg_count(words, probes.drop_last(), threshold, points, bits) + if points - score(
            words,
            probes.last(),
            points,
            bits,
        ) < threshold {
            1nat
        } else {
            0nat
        }
    }
}

/// A fixed-size bit array of `base_length * 2^level` 64-bit words that
/// summarizes a multiset of items: each item XOR-toggles `points` addressed
/// bits, so the array of two combined sketches encodes their symmetric
/// difference up to address collisions.
#[derive(Debug)]
pub struct BinaryCountSketch {
    pub base_length: u64,
    pub level: u64,
    pub points: u64,
    pub words: Vec<u64>,
}

impl BinaryCountSketch {
    /// Structural invariant: the word count matches `base_length * 2^level`
    /// for the current level, and the machine can address every bit.
    pub open spec fn wf(&self) -> bool {
        &&& self.level < 64
        &&& self.words@.len() == self.base_length * pow2(self.level as nat)
        &&& self.words@.len() * 64 <= usize::MAX
        &&& self.points <= usize::MAX as u64
    }

    /// Total addressable bits: 64 per word.
    pub open spec fn bits_spec(&self) -> nat {
        self.words@.len() * 64
    }

    /// A zero-filled sketch of `base_length * 2^level` words.
    pub fn new(base_length: u64, level: u64, points: u64) -> (r: Self)
        requires
            level < 64,
            base_length * pow2(level as nat) * 64 <= usize::MAX,
            points <= usize::MAX as u64,
        ensures
            r.wf(),
            r.base_length == base_length,
            r.level == level,
            r.points == points,
            r.words@.len() == base_length * pow2(level as nat),
            r.words@ == zero_words((base_length * pow2(level as nat)) as nat),
    {
        proof {
            vstd::bits::lemma_u64_pow2_no_overflow(level as nat);
            assert(base_length * pow2(level as nat) <= u64::MAX) by (nonlinear_arith)
                requires
                    base_length * pow2(level as nat) * 64 <= usize::MAX,
                    usize::MAX <= u64::MAX,
            ;
            vstd::bits::lemma_u64_shl_is_mul(base_length, level);
        }
        let n = (base_length << level) as usize;
        let mut words: Vec<u64> = Vec::new();
        while words.len() < n
            invariant
                words@.len() <= n,
                forall|i: int| 0 <= i < words@.len() ==> words@[i] == 0u64,
            decreases n - words@.len(),
        {
            words.push(0u64);
        }
        proof {
            assert(words@ =~= zero_words(n as nat));
        }
        BinaryCountSketch { base_length, level, points, words }
    }

    /// The number of addressable bits.
    pub fn bits(&self) -> (r: usize)
        requires
            self.wf(),
        ensures
            r == self.bits_spec(),
    {
        self.words.len() * 64
    }

    /// XOR-flip the addressed bit of each slot of `v`. Self-inverse: toggling
    /// the same item again undoes the first toggle.
    pub fn toggle<V: Item>(&mut self, v: &V)
        requires
            old(self).wf(),
            old(self).points > 0 ==> old(self).words@.len() > 0,
            forall|i: u64| i < old(self).points ==> v.slot_ok(i),
        ensures
            final(self).wf(),
            final(self).base_length == old(self).base_length,
            final(self).level == old(self).level,
            final(self).points == old(self).points,
            final(self).words@ == toggled(
                old(self).words@,
                *v,
                old(self).points as int,
                old(self).bits_spec(),
            ),
    {
        let ghost w0 = self.words@;
        let ghost bits = self.bits_spec();
        let ghost base0 = self.base_length;
        let ghost level0 = self.level;
        let p = self.points;
        let l = self.words.len() * 64;
        let mut i: u64 = 0;
        while i < p
            invariant
                i <= p,
                self.base_length == base0,
                self.level == level0,
                self.points == p,
                p > 0 ==> w0.len() > 0,
                l == w0.len() * 64,
                l == bits,
                l <= usize::MAX,
                forall|j: u64| j < p ==> v.slot_ok(j),
                self.words@.len() == w0.len(),
                self.words@ == toggled(w0, *v, i as int, bits),
            decreases p - i,
        {
            let c = v.get_code(i);
            let b = c % l;
            let w = b / 64;
            let m: u64 = 1u64 << ((b % 64) as u64);
            proof {
                assert(b < l);
                assert(b / 64 < w0.len()) by (nonlinear_arith)
                    requires
                        b < w0.len() * 64,
                ;
                assert(m == mask_of(b as nat));
                assert(b as nat == addr_of(*v, i, bits));
            }
            let tmp = self.words[w] ^ m;
            self.words[w] = tmp;
            proof {
                assert(self.words@ == flip_bit(toggled(w0, *v, i as int, bits), b as nat));
                assert(self.words@ == toggled(w0, *v, i as int + 1, bits));
            }
            i = i + 1;
        }
    }

    /// The membership score of `v`: how many of its addressed bits are
    /// currently set, a value in `[0, points]`. Read-only; the bit count is
    /// recomputed from the present word count.
    pub fn check<V: Item>(&self, v: &V) -> (r: usize)
        requires
            self.wf(),
            self.points > 0 ==> self.words@.len() > 0,
            forall|i: u64| i < self.points ==> v.slot_ok(i),
        ensures
            r == score(self.words@, *v, self.points as int, self.bits_spec()),
            r <= self.points,
    {
        let p = self.points;
        let l = self.words.len() * 64;
        let mut total: usize = 0;
        let mut i: u64 = 0;
        while i < p
            invariant
                i <= p,
                p == self.points,
                p <= usize::MAX as u64,
                self.wf(),
                p > 0 ==> self.words@.len() > 0,
                l == self.words@.len() * 64,
                forall|j: u64| j < p ==> v.slot_ok(j),
                total <= i,
                total == score(self.words@, *v, i as int, self.bits_spec()),
            decreases p - i,
        {
            let c = v.get_code(i);
            let b = c % l;
            let w = b / 64;
            proof {
                assert(b / 64 < self.words@.len()) by (nonlinear_arith)
                    requires
                        b < self.words@.len() * 64,
                ;
                assert((1u64 << ((b % 64) as u64)) == mask_of(b as nat));
                assert(b as nat == addr_of(*v, i, self.bits_spec()));
            }
            if self.words[w] & (1u64 << ((b % 64) as u64)) != 0 {
                total = total + 1;
            }
            proof {
                assert(score(self.words@, *v, i as int + 1, self.bits_spec()) == score(
                    self.words@,
                    *v,
                    i as int,
                    self.bits_spec(),
                ) + if bit_set(self.words@, addr_of(*v, i, self.bits_spec())) {
                    1nat
                } else {
                    0nat
                });
            }
            i = i + 1;
        }
        total
    }

    /// The scores of the given items against the current bit array, one per
    /// item, in input order.
    pub fn decode<V: Item>(&self, items: &Vec<V>) -> (r: Vec<usize>)
        requires
            self.wf(),
            self.points > 0 ==> self.words@.len() > 0,
            forall|k: int, i: u64|
                0 <= k < items@.len() && i < self.points ==> #[trigger] items@[k].slot_ok(i),
        ensures
            r@.len() == items@.len(),
            forall|k: int|
                0 <= k < items@.len() ==> r@[k] == score(
                    self.words@,
                    items@[k],
                    self.points as int,
                    self.bits_spec(),
                ),
    {
        let mut out: Vec<usize> = Vec::new();
        let mut k: usize = 0;
        while k < items.len()
            invariant
                k <= items@.len(),
                self.wf(),
                self.points > 0 ==> self.words@.len() > 0,
                forall|j: int, i: u64|
                    0 <= j < items@.len() && i < self.points ==> #[trigger] items@[j].slot_ok(i),
                out@.len() == k,
                forall|j: int|
                    0 <= j < k ==> out@[j] == score(
                        self.words@,
                        items@[j],
                        self.points as int,
                        self.bits_spec(),
                    ),
            decreases items@.len() - k,
        {
            let s = self.check(&items[k]);
            out.push(s);
            k = k + 1;
        }
        out
    }

    /// XOR every word of a compatible `other` into `self`, in place, so that
    /// `self` comes to encode the symmetric difference of the two summarized
    /// multisets (up to address collisions). `other` is untouched. The
    /// compatibility checks run in a fixed priority order and the first
    /// mismatch determines the error.
    pub fn diff_with(&mut self, other: &Self) -> (r: Result<(), BinaryCountSketchError>)
        requires
            old(self).wf(),
        ensures
            final(self).wf(),
            final(self).base_length == old(self).base_length,
            final(self).level == old(self).level,
            final(self).points == old(self).points,
            final(self).words@.len() == old(self).words@.len(),
            r is Ok <==> (old(self).base_length == other.base_length && old(self).level
                == other.level && old(self).points == other.points && old(self).words@.len()
                == other.words@.len()),
            r is Ok ==> forall|j: int|
                0 <= j < final(self).words@.len() ==> final(self).words@[j] == (
                old(self).words@[j] ^ other.words@[j]),
            r is Err ==> final(self).words@ == old(self).words@,
            old(self).base_length != other.base_length ==> (r matches Err(e)
                && e@ == msg_incorrect_base_length()),
            old(self).base_length == other.base_length && old(self).level != other.level ==> (
            r matches Err(e) && e@ == msg_incorrect_level()),
            old(self).base_length == other.base_length && old(self).level == other.level
                && old(self).points != other.points ==> (r matches Err(e)
                && e@ == msg_incorrect_points()),
            old(self).base_length == other.base_length && old(self).level == other.level
                && old(self).points == other.points && old(self).words@.len()
                != other.words@.len() ==> (r matches Err(e) && e@ == msg_incorrect_words_length()),
    {
        if !(self.base_length == other.base_length) {
            return Err(BinaryCountSketchError::new("Incorrect base length"));
        }
        if !(self.level == other.level) {
            return Err(BinaryCountSketchError::new("Incorrect level"));
        }
        if !(self.points == other.points) {
            return Err(BinaryCountSketchError::new("Incorrect points"));
        }
        if !(self.words.len() == other.words.len()) {
            return Err(BinaryCountSketchError::new("Incorrect words length"));
        }
        let ghost w0 = self.words@;
        let ghost base0 = self.base_length;
        let ghost level0 = self.level;
        let ghost p0 = self.points;
        let n = self.words.len();
        let mut i: usize = 0;
        while i < n
            invariant
                i <= n,
                self.base_length == base0,
                self.level == level0,
                self.points == p0,
                self.words@.len() == w0.len(),
                n == w0.len(),
                n == other.words@.len(),
                forall|j: int| 0 <= j < i ==> self.words@[j] == (w0[j] ^ other.words@[j]),
                forall|j: int| i <= j < n ==> self.words@[j] == w0[j],
            decreases n - i,
        {
            let tmp = self.words[i] ^ other.words[i];
            self.words[i] = tmp;
            i = i + 1;
        }
        Ok(())
    }

    /// A new, independent sketch at a strictly smaller level: the bit array
    /// is XOR-folded down to `base_length * 2^new_level` words, each old word
    /// landing at its index modulo the new length. Lossy but
    /// parity-preserving; the receiver is untouched.
    pub fn level_down(&self, new_level: u64) -> (r: Result<Self, BinaryCountSketchError>)
        requires
            self.wf(),
        ensures
            new_level >= self.level ==> (r matches Err(e) && e@ == msg_incorrect_level()),
            new_level < self.level ==> (r matches Ok(s) && {
                &&& s.wf()
                &&& s.base_length == self.base_length
                &&& s.level == new_level
                &&& s.points == self.points
                &&& s.words@.len() == self.base_length * pow2(new_level as nat)
                &&& s.words@ == fold_words(
                    zero_words((self.base_length * pow2(new_level as nat)) as nat),
                    self.words@,
                    self.words@.len() as int,
                )
                &&& new_level + 1 == self.level ==> 2 * s.words@.len() == self.words@.len()
            }),
    {
        if !(new_level < self.level) {
            return Err(BinaryCountSketchError::new("Incorrect level"));
        }
        proof {
            vstd::arithmetic::power2::lemma_pow2_strictly_increases(
                new_level as nat,
                self.level as nat,
            );
            assert(self.base_length * pow2(new_level as nat) * 64 <= usize::MAX)
                by (nonlinear_arith)
                requires
                    pow2(new_level as nat) <= pow2(self.level as nat),
                    self.base_length * pow2(self.level as nat) * 64 <= usize::MAX,
            ;
            assert(self.base_length * pow2(new_level as nat) <= u64::MAX) by (nonlinear_arith)
                requires
                    self.base_length * pow2(new_level as nat) * 64 <= usize::MAX,
                    usize::MAX <= u64::MAX,
            ;
            vstd::bits::lemma_u64_shl_is_mul(self.base_length, new_level);
        }
        let n = (self.base_length << new_level) as usize;
        let mut new_words: Vec<u64> = Vec::new();
        while new_words.len() < n
            invariant
                new_words@.len() <= n,
                forall|i: int| 0 <= i < new_words@.len() ==> new_words@[i] == 0u64,
            decreases n - new_words@.len(),
        {
            new_words.push(0u64);
        }
        proof {
            assert(new_words@ =~= zero_words(n as nat));
            if self.words@.len() > 0 {
                vstd::arithmetic::power2::lemma_pow2_pos(new_level as nat);
                assert(n > 0) by (nonlinear_arith)
                    requires
                        n == self.base_length * pow2(new_level as nat),
                        self.base_length * pow2(self.level as nat) > 0,
                        pow2(new_level as nat) > 0,
                ;
            }
        }
        let ghost zw = zero_words(n as nat);
        let m = self.words.len();
        let mut i: usize = 0;
        while i < m
            invariant
                i <= m,
                m == self.words@.len(),
                new_words@.len() == n,
                m > 0 ==> n > 0,
                new_words@ == fold_words(zw, self.words@, i as int),
                zw.len() == n,
            decreases m - i,
        {
            let j = i % n;
            let tmp = new_words[j] ^ self.words[i];
            new_words[j] = tmp;
            i = i + 1;
        }
        proof {
            if new_level + 1 == self.level {
                vstd::arithmetic::power2::lemma_pow2_adds(new_level as nat, 1);
                vstd::arithmetic::power2::lemma2_to64();
                assert(2 * (self.base_length * pow2(new_level as nat)) == self.base_length * (
                pow2(new_level as nat) * 2)) by (nonlinear_arith);
            }
        }
        Ok(
            BinaryCountSketch {
                base_length: self.base_length,
                level: new_level,
                points: self.points,
                words: new_words,
            },
        )
    }

    /// Score each given probe and tally the two estimator counts: a probe is
    /// a false positive when its score is at least `threshold`, and a false
    /// negative when `points - score < threshold` (this strict inequality is
    /// the exact boundary used). Fails when `threshold` exceeds `points`.
    pub fn estimate_stats_with<V: Item>(&self, probes: &Vec<V>, threshold: usize) -> (r: Result<
        (usize, usize),
        BinaryCountSketchError,
    >)
        requires
            self.wf(),
            self.points > 0 ==> self.words@.len() > 0,
            forall|k: int, i: u64|
                0 <= k < probes@.len() && i < self.points ==> #[trigger] probes@[k].slot_ok(i),
        ensures
            threshold > self.points ==> (r matches Err(e) && e@ == msg_incorrect_threshold()),
            threshold <= self.points ==> (r matches Ok(c) && {
                &&& c.0 == false_pos_count(
                    self.words@,
                    probes@,
                    threshold as int,
                    self.points as int,
                    self.bits_spec(),
                )
                &&& c.1 == false_neg_count(
                    self.words@,
                    probes@,
                    threshold as int,
                    self.points as int,
                    self.bits_spec(),
                )
                &&& c.0 <= probes@.len()
                &&& c.1 <= probes@.len()
            }),
    {
        if !(threshold <= self.points as usize) {
            return Err(BinaryCountSketchError::new("Incorrect threshold"));
        }
        let n = probes.len();
        let mut fp: usize = 0;
        let mut fneg: usize = 0;
        let mut k: usize = 0;
        while k < n
            invariant
                k <= n,
                n == probes@.len(),
                self.wf(),
                self.points > 0 ==> self.words@.len() > 0,
                threshold <= self.points,
                forall|j: int, i: u64|
                    0 <= j < probes@.len() && i < self.points ==> #[trigger] probes@[j].slot_ok(
                        i,
                    ),
                fp <= k,
                fneg <= k,
                fp == false_pos_count(
                    self.words@,
                    probes@.take(k as int),
                    threshold as int,
                    self.points as int,
                    self.bits_spec(),
                ),
                fneg == false_neg_count(
                    self.words@,
                    probes@.take(k as int),
                    threshold as int,
                    self.points as int,
                    self.bits_spec(),
                ),
            decreases n - k,
        {
            let t = self.check(&probes[k]);
            proof {
                assert(probes@.take(k as int + 1).drop_last() =~= probes@.take(k as int));
                assert(probes@.take(k as int + 1).last() == probes@[k as int]);
            }
            if t >= threshold {
                fp = fp + 1;
            }
            if (self.points as usize) - t < threshold {
                fneg = fneg + 1;
            }
            k = k + 1;
        }
        proof {
            assert(probes@.take(n as int) =~= probes@);
        }
        Ok((fp, fneg))
    }

    /// Estimate false-positive and false-negative counts for an acceptance
    /// threshold by drawing `samples` synthetic probes, each with `points`
    /// uniformly random addresses, and tallying them as `estimate_stats_with`
    /// does. Returns raw counts, not rates. The counts depend on the random
    /// draws, but whatever came back, they are the exact tallies of some
    /// `samples` probes against the current bit array.
    pub fn estimate_stats(&self, samples: usize, threshold: usize) -> (r: Result<
        (usize, usize),
        BinaryCountSketchError,
    >)
        requires
            self.wf(),
            self.points > 0 ==> self.words@.len() > 0,
        ensures
            threshold > self.points ==> (r matches Err(e) && e@ == msg_incorrect_threshold()),
            threshold <= self.points ==> (r matches Ok(c) && c.0 <= samples && c.1 <= samples),
            threshold <= self.points ==> (r matches Ok(c) && exists|ps: Seq<crate::item::TestItem>|
                ps.len() == samples && c.0 == false_pos_count(
                    self.words@,
                    ps,
                    threshold as int,
                    self.points as int,
                    self.bits_spec(),
                ) && c.1 == false_neg_count(
                    self.words@,
                    ps,
                    threshold as int,
                    self.points as int,
                    self.bits_spec(),
                )),
    {
        if !(threshold <= self.points as usize) {
            return Err(BinaryCountSketchError::new("Incorrect threshold"));
        }
        let p = self.points as usize;
        let mut probes: Vec<crate::item::TestItem> = Vec::new();
        let mut s: usize = 0;
        while s < samples
            invariant
                s <= samples,
                p == self.points,
                probes@.len() == s,
                forall|k: int, i: u64|
                    0 <= k < probes@.len() && i < self.points ==> #[trigger] probes@[k].slot_ok(
                        i,
                    ),
            decreases samples - s,
        {
            let mut codes: Vec<usize> = Vec::new();
            let mut j: usize = 0;
            while j < p
                invariant
                    j <= p,
                    codes@.len() == j,
                decreases p - j,
            {
                codes.push(crate::item::random_usize());
                j = j + 1;
            }
            let probe = crate::item::TestItem::from_codes(codes);
            probes.push(probe);
            s = s + 1;
        }
        let r = self.estimate_stats_with(&probes, threshold);
        proof {
            assert(probes@.len() == samples);
        }
        r
    }
}

} // verus!
