use vstd::prelude::*;

use crate::item::Item;
use crate::sketch::addr_of;
use crate::sketch::bit_set;
use crate::sketch::false_neg_count;
use crate::sketch::false_pos_count;
use crate::sketch::flip_bit;
use crate::sketch::mask_of;
use crate::sketch::score;
use crate::sketch::toggled;

verus! {

/// An address below the bit count names a word inside the array.
proof fn lemma_addr_word_in_range(a: nat, len: nat)
    requires
        a < len * 64,
    ensures
        a / 64 < len,
{
    assert(a / 64 < len) by (nonlinear_arith)
        requires
            a < len * 64,
    ;
}

/// Flipping one bit keeps the word count.
proof fn lemma_flip_bit_len(words: Seq<u64>, a: nat)
    requires
        a / 64 < words.len(),
    ensures
        flip_bit(words, a).len() == words.len(),
{
}

/// Flipping the same bit twice restores the bit array.
proof fn lemma_flip_flip(words: Seq<u64>, a: nat)
    requires
        a / 64 < words.len(),
    ensures
        flip_bit(flip_bit(words, a), a) == words,
{
    let m = mask_of(a);
    let i = (a / 64) as int;
    let w = words[i];
    assert((w ^ m) ^ m == w) by (bit_vector);
    assert(flip_bit(flip_bit(words, a), a) =~= words);
}

/// Two bit flips commute.
proof fn lemma_flip_comm(words: Seq<u64>, a: nat, b: nat)
    requires
        a / 64 < words.len(),
        b / 64 < words.len(),
    ensures
        flip_bit(flip_bit(words, a), b) == flip_bit(flip_bit(words, b), a),
{
    let ma = mask_of(a);
    let mb = mask_of(b);
    if a / 64 == b / 64 {
        let w = words[(a / 64) as int];
        assert((w ^ ma) ^ mb == (w ^ mb) ^ ma) by (bit_vector);
        assert(flip_bit(flip_bit(words, a), b) =~= flip_bit(flip_bit(words, b), a));
    } else {
        assert(flip_bit(flip_bit(words, a), b) =~= flip_bit(flip_bit(words, b), a));
    }
}

/// Toggling an item keeps the word count.
proof fn lemma_toggled_len<V: Item>(words: Seq<u64>, v: V, points: int, bits: nat)
    requires
        bits == words.len() * 64,
        bits > 0 || points <= 0,
    ensures
        toggled(words, v, points, bits).len() == words.len(),
    decreases points,
{
    if points > 0 {
        lemma_toggled_len(words, v, points - 1, bits);
        let a = addr_of(v, (points - 1) as u64, bits);
        lemma_addr_word_in_range(a, words.len());
    }
}

/// Toggling an item commutes with one bit flip.
proof fn lemma_toggled_flip_comm<V: Item>(words: Seq<u64>, v: V, points: int, bits: nat, b: nat)
    requires
        bits == words.len() * 64,
        bits > 0 || points <= 0,
        b / 64 < words.len(),
    ensures
        toggled(flip_bit(words, b), v, points, bits) == flip_bit(
            toggled(words, v, points, bits),
            b,
        ),
    decreases points,
{
    if points > 0 {
        let a = addr_of(v, (points - 1) as u64, bits);
        lemma_addr_word_in_range(a, words.len());
        lemma_toggled_len(words, v, points - 1, bits);
        lemma_toggled_flip_comm(words, v, points - 1, bits, b);
        lemma_flip_comm(toggled(words, v, points - 1, bits), a, b);
    }
}

/// Law of idempotent toggling, on the bit-array model: toggling the same
/// item twice in a row restores the bit array exactly, for any item and any
/// sketch whose bit count matches its word count.
pub proof fn lemma_toggle_twice_identity<V: Item>(words: Seq<u64>, v: V, points: int, bits: nat)
    requires
        bits == words.len() * 64,
        bits > 0 || points <= 0,
    ensures
        toggled(toggled(words, v, points, bits), v, points, bits) == words,
    decreases points,
{
    if points > 0 {
        let a = addr_of(v, (points - 1) as u64, bits);
        lemma_addr_word_in_range(a, words.len());
        lemma_toggled_len(words, v, points - 1, bits);
        lemma_flip_bit_len(toggled(words, v, points - 1, bits), a);
        lemma_toggled_flip_comm(words, v, points - 1, bits, a);
        lemma_toggle_twice_identity(words, v, points - 1, bits);
        assert(toggled(flip_bit(toggled(words, v, points - 1, bits), a), v, points - 1, bits)
            == flip_bit(toggled(toggled(words, v, points - 1, bits), v, points - 1, bits), a)) by {
            lemma_toggled_flip_comm(toggled(words, v, points - 1, bits), v, points - 1, bits, a);
        }
        lemma_flip_flip(words, a);
    }
}

/// Law of idempotent toggling, as seen through the membership score: after
/// toggling any item `v` twice in a row, every item `u` scores exactly what
/// it scored before.
pub proof fn lemma_toggle_twice_check_unchanged<V: Item, U: Item>(
    words: Seq<u64>,
    v: V,
    u: U,
    points: int,
    bits: nat,
)
    requires
        bits == words.len() * 64,
        bits > 0 || points <= 0,
    ensures
        score(toggled(toggled(words, v, points, bits), v, points, bits), u, points, bits) == score(
            words,
            u,
            points,
            bits,
        ),
{
    lemma_toggle_twice_identity(words, v, points, bits);
}

/// Law of the empty sketch: while every word of the bit array is zero, as
/// immediately after construction, every item's membership score is zero.
pub proof fn lemma_empty_sketch_score_zero<V: Item>(words: Seq<u64>, v: V, points: int, bits: nat)
    requires
        forall|i: int| 0 <= i < words.len() ==> words[i] == 0u64,
        bits == words.len() * 64,
        bits > 0 || points <= 0,
    ensures
        score(words, v, points, bits) == 0,
    decreases points,
{
    if points > 0 {
        lemma_empty_sketch_score_zero(words, v, points - 1, bits);
        let a = addr_of(v, (points - 1) as u64, bits);
        lemma_addr_word_in_range(a, words.len());
        let m = mask_of(a);
        assert(0u64 & m == 0u64) by (bit_vector);
        assert(!bit_set(words, a));
    }
}

/// A membership score never exceeds the points count.
pub proof fn lemma_score_le_points<V: Item>(words: Seq<u64>, v: V, points: int, bits: nat)
    requires
        points >= 0,
    ensures
        score(words, v, points, bits) <= points,
    decreases points,
{
    if points > 0 {
        lemma_score_le_points(words, v, points - 1, bits);
    }
}

/// Law of the zero threshold: at threshold zero every probe scores at least
/// the threshold and no probe's complementary score falls below it, whatever
/// the bit array holds, so the estimator's tallies are exactly
/// `(probes.len(), 0)` on every outcome.
pub proof fn lemma_stats_threshold_zero<V: Item>(
    words: Seq<u64>,
    probes: Seq<V>,
    points: int,
    bits: nat,
)
    requires
        points >= 0,
    ensures
        false_pos_count(words, probes, 0, points, bits) == probes.len(),
        false_neg_count(words, probes, 0, points, bits) == 0,
    decreases probes.len(),
{
    if probes.len() > 0 {
        lemma_stats_threshold_zero(words, probes.drop_last(), points, bits);
        lemma_score_le_points(words, probes.last(), points, bits);
    }
}

/// Law of the estimator on an all-zero sketch: while every word is zero,
/// every probe scores zero, so for any threshold between one and the points
/// count the estimator's tallies are exactly `(0, 0)` on every outcome.
pub proof fn lemma_stats_empty_sketch<V: Item>(
    words: Seq<u64>,
    probes: Seq<V>,
    threshold: int,
    points: int,
    bits: nat,
)
    requires
        forall|i: int| 0 <= i < words.len() ==> words[i] == 0u64,
        bits == words.len() * 64,
        bits > 0 || points <= 0,
        1 <= threshold <= points,
    ensures
        false_pos_count(words, probes, threshold, points, bits) == 0,
        false_neg_count(words, probes, threshold, points, bits) == 0,
    decreases probes.len(),
{
    if probes.len() > 0 {
        lemma_stats_empty_sketch(words, probes.drop_last(), threshold, points, bits);
        lemma_empty_sketch_score_zero(words, probes.last(), points, bits);
    }
}

} // verus!
