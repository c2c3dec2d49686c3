use vstd::prelude::*;

use vstd::multiset::Multiset;

use crate::item::Item;
use crate::sketch::BinaryCountSketch;
use crate::sketch::score;
use crate::sketch::toggled;

verus! {

/// The bit array after toggling each item of `items` into `words`, in order.
pub open spec fn toggle_seq<V: Item>(
    words: Seq<u64>,
    items: Seq<V>,
    points: int,
    bits: nat,
) -> Seq<u64>
    decreases items.len(),
{
    if items.len() == 0 {
        words
    } else {
        toggled(toggle_seq(words, items.drop_last(), points, bits), items.last(), points, bits)
    }
}

/// The candidates one decoder round accepts: those scoring at least `thr`
/// against `words`, in input order.
pub open spec fn accepted_of<V: Item>(
    words: Seq<u64>,
    cands: Seq<V>,
    thr: u64,
    points: int,
    bits: nat,
) -> Seq<V> {
    cands.filter(|x: V| score(words, x, points, bits) >= thr)
}

/// The candidates one decoder round passes on to the next, in input order.
pub open spec fn rejected_of<V: Item>(
    words: Seq<u64>,
    cands: Seq<V>,
    thr: u64,
    points: int,
    bits: nat,
) -> Seq<V> {
    cands.filter(|x: V| !(score(words, x, points, bits) >= thr))
}

/// One candidate extends a round's accepted and rejected lists according to
/// its score alone.
proof fn lemma_round_step<V: Item>(words: Seq<u64>, cands: Seq<V>, thr: u64, points: int, bits: nat)
    requires
        cands.len() > 0,
    ensures
        accepted_of(words, cands, thr, points, bits) == if score(
            words,
            cands.last(),
            points,
            bits,
        ) >= thr {
            accepted_of(words, cands.drop_last(), thr, points, bits).push(cands.last())
        } else {
            accepted_of(words, cands.drop_last(), thr, points, bits)
        },
        rejected_of(words, cands, thr, points, bits) == if !(score(
            words,
            cands.last(),
            points,
            bits,
        ) >= thr) {
            rejected_of(words, cands.drop_last(), thr, points, bits).push(cands.last())
        } else {
            rejected_of(words, cands.drop_last(), thr, points, bits)
        },
{
    reveal(Seq::filter);
}

/// A round partitions its candidates: accepted and rejected counts sum to
/// the candidate count, and a round that accepts nobody passes every
/// candidate on unchanged.
proof fn lemma_round_partition<V: Item>(
    words: Seq<u64>,
    cands: Seq<V>,
    thr: u64,
    points: int,
    bits: nat,
)
    ensures
        accepted_of(words, cands, thr, points, bits).len() + rejected_of(
            words,
            cands,
            thr,
            points,
            bits,
        ).len() == cands.len(),
        accepted_of(words, cands, thr, points, bits).len() == 0 ==> rejected_of(
            words,
            cands,
            thr,
            points,
            bits,
        ) == cands,
    decreases cands.len(),
{
    reveal(Seq::filter);
    if cands.len() > 0 {
        lemma_round_partition(words, cands.drop_last(), thr, points, bits);
        lemma_round_step(words, cands, thr, points, bits);
        if accepted_of(words, cands, thr, points, bits).len() == 0 {
            assert(cands.drop_last().push(cands.last()) =~= cands);
        }
    }
}

/// A round's partition, as multisets: the accepted and the rejected
/// candidates together hold exactly the round's candidates.
proof fn lemma_round_partition_multiset<V: Item>(
    words: Seq<u64>,
    cands: Seq<V>,
    thr: u64,
    points: int,
    bits: nat,
)
    ensures
        accepted_of(words, cands, thr, points, bits).to_multiset().add(
            rejected_of(words, cands, thr, points, bits).to_multiset(),
        ) =~= cands.to_multiset(),
    decreases cands.len(),
{
    broadcast use vstd::seq_lib::group_to_multiset_ensures;
    broadcast use vstd::multiset::group_multiset_axioms;

    reveal(Seq::filter);
    if cands.len() == 0 {
        assert(cands.to_multiset() =~= Multiset::<V>::empty());
    } else {
        lemma_round_partition_multiset(words, cands.drop_last(), thr, points, bits);
        lemma_round_step(words, cands, thr, points, bits);
        assert(cands.drop_last().push(cands.last()) =~= cands);
        assert(cands.drop_last().push(cands.last()).to_multiset() =~= cands.drop_last()
            .to_multiset().insert(cands.last()));
        let fa = accepted_of(words, cands.drop_last(), thr, points, bits);
        let fr = rejected_of(words, cands.drop_last(), thr, points, bits);
        assert(fa.push(cands.last()).to_multiset() =~= fa.to_multiset().insert(cands.last()));
        assert(fr.push(cands.last()).to_multiset() =~= fr.to_multiset().insert(cands.last()));
    }
}

/// The whole peeling run, as a function of the starting bit array, the
/// candidate list and the starting threshold: each round scores every
/// candidate against the round's bit array, toggles the accepted ones out in
/// input order, and passes the rest on; a round that accepts nobody lowers
/// the threshold by one, down to `floor`, and then stops. The result is the
/// final bit array, the accepted items in discovery order, and the remaining
/// candidates in input order.
pub open spec fn peel_spec<V: Item>(
    words: Seq<u64>,
    cands: Seq<V>,
    thr: u64,
    floor: u64,
    points: int,
    bits: nat,
) -> (Seq<u64>, Seq<V>, Seq<V>)
    decreases cands.len(), thr,
    via peel_spec_decreases::<V>
{
    let f = accepted_of(words, cands, thr, points, bits);
    if f.len() == 0 {
        if thr > floor {
            peel_spec(words, cands, (thr - 1) as u64, floor, points, bits)
        } else {
            (words, Seq::<V>::empty(), cands)
        }
    } else {
        let rec = peel_spec(
            toggle_seq(words, f, points, bits),
            rejected_of(words, cands, thr, points, bits),
            thr,
            floor,
            points,
            bits,
        );
        (rec.0, f + rec.1, rec.2)
    }
}

#[via_fn]
proof fn peel_spec_decreases<V: Item>(
    words: Seq<u64>,
    cands: Seq<V>,
    thr: u64,
    floor: u64,
    points: int,
    bits: nat,
) {
    lemma_round_partition(words, cands, thr, points, bits);
}

/// Law of the decoder partition: the recovered items and the remaining
/// candidates together count exactly the candidates given.
pub proof fn lemma_peel_partition_len<V: Item>(
    words: Seq<u64>,
    cands: Seq<V>,
    thr: u64,
    floor: u64,
    points: int,
    bits: nat,
)
    ensures
        peel_spec(words, cands, thr, floor, points, bits).1.len() + peel_spec(
            words,
            cands,
            thr,
            floor,
            points,
            bits,
        ).2.len() == cands.len(),
    decreases cands.len(), thr,
{
    let f = accepted_of(words, cands, thr, points, bits);
    let rem = rejected_of(words, cands, thr, points, bits);
    lemma_round_partition(words, cands, thr, points, bits);
    if f.len() == 0 {
        if thr > floor {
            lemma_peel_partition_len(words, cands, (thr - 1) as u64, floor, points, bits);
        }
    } else {
        lemma_peel_partition_len(toggle_seq(words, f, points, bits), rem, thr, floor, points, bits);
    }
}

/// Law of the decoder partition, as multisets: the recovered items and the
/// remaining candidates together are exactly the candidates given; nothing
/// is lost, duplicated or invented.
pub proof fn lemma_peel_partition_multiset<V: Item>(
    words: Seq<u64>,
    cands: Seq<V>,
    thr: u64,
    floor: u64,
    points: int,
    bits: nat,
)
    ensures
        peel_spec(words, cands, thr, floor, points, bits).1.to_multiset().add(
            peel_spec(words, cands, thr, floor, points, bits).2.to_multiset(),
        ) =~= cands.to_multiset(),
    decreases cands.len(), thr,
{
    broadcast use vstd::seq_lib::group_to_multiset_ensures;
    broadcast use vstd::multiset::group_multiset_axioms;

    let f = accepted_of(words, cands, thr, points, bits);
    let rem = rejected_of(words, cands, thr, points, bits);
    lemma_round_partition(words, cands, thr, points, bits);
    if f.len() == 0 {
        if thr > floor {
            lemma_peel_partition_multiset(words, cands, (thr - 1) as u64, floor, points, bits);
        } else {
            assert(Seq::<V>::empty().to_multiset() =~= Multiset::<V>::empty());
        }
    } else {
        lemma_round_partition_multiset(words, cands, thr, points, bits);
        lemma_peel_partition_multiset(
            toggle_seq(words, f, points, bits),
            rem,
            thr,
            floor,
            points,
            bits,
        );
        let rec = peel_spec(toggle_seq(words, f, points, bits), rem, thr, floor, points, bits);
        vstd::seq_lib::lemma_multiset_commutative(f, rec.1);
        assert((f + rec.1).to_multiset().add(rec.2.to_multiset()) =~= f.to_multiset().add(
            rec.1.to_multiset().add(rec.2.to_multiset()),
        ));
    }
}

/// The peeling decoder: starting at the strictest threshold (the sketch's
/// points count), repeatedly score all candidates, accept those at or above
/// the threshold - appending them to the recovered list and toggling them out
/// of the sketch at once - and retry; when a round accepts nobody, relax the
/// threshold by one, never below `floor_threshold`, and stop once it can
/// relax no further. Returns the recovered items in discovery order and the
/// unaccepted remainder.
pub fn peel_decode<V: Item>(
    sketch: &mut BinaryCountSketch,
    candidates: Vec<V>,
    floor_threshold: u64,
) -> (r: (Vec<V>, Vec<V>))
    requires
        old(sketch).wf(),
        old(sketch).points > 0 ==> old(sketch).words@.len() > 0,
        forall|k: int, i: u64|
            0 <= k < candidates@.len() && i < old(sketch).points ==> #[trigger] candidates@[
                k
            ].slot_ok(i),
    ensures
        final(sketch).wf(),
        final(sketch).base_length == old(sketch).base_length,
        final(sketch).level == old(sketch).level,
        final(sketch).points == old(sketch).points,
        ({
            let res = peel_spec(
                old(sketch).words@,
                candidates@,
                old(sketch).points,
                floor_threshold,
                old(sketch).points as int,
                old(sketch).bits_spec(),
            );
            &&& final(sketch).words@ == res.0
            &&& r.0@ == res.1
            &&& r.1@ == res.2
        }),
        r.0@.len() + r.1@.len() == candidates@.len(),
        r.0@.to_multiset().add(r.1@.to_multiset()) == candidates@.to_multiset(),
{
    let ghost base0 = sketch.base_length;
    let ghost level0 = sketch.level;
    let p = sketch.points;
    let ghost bits = sketch.bits_spec();
    let ghost res_total = peel_spec(
        sketch.words@,
        candidates@,
        p,
        floor_threshold,
        p as int,
        bits,
    );
    let ghost res0 = res_total.0;
    let ghost res1 = res_total.1;
    let ghost res2 = res_total.2;
    proof {
        lemma_peel_partition_len(sketch.words@, candidates@, p, floor_threshold, p as int, bits);
        lemma_peel_partition_multiset(
            sketch.words@,
            candidates@,
            p,
            floor_threshold,
            p as int,
            bits,
        );
        assert(res1.skip(0) =~= res1);
    }
    let mut cands = candidates;
    let mut found: Vec<V> = Vec::new();
    let mut thr: u64 = p;
    loop
        invariant_except_break
            sketch.wf(),
            sketch.base_length == base0,
            sketch.level == level0,
            sketch.points == p,
            p > 0 ==> sketch.words@.len() > 0,
            sketch.bits_spec() == bits,
            thr <= p,
            forall|k: int, i: u64|
                0 <= k < cands@.len() && i < p ==> #[trigger] cands@[k].slot_ok(i),
            found@.len() <= res1.len(),
            found@ == res1.take(found@.len() as int),
            peel_spec(sketch.words@, cands@, thr, floor_threshold, p as int, bits) == (
                res0,
                res1.skip(found@.len() as int),
                res2,
            ),
        ensures
            sketch.wf(),
            sketch.base_length == base0,
            sketch.level == level0,
            sketch.points == p,
            sketch.words@ == res0,
            found@ == res1,
            cands@ == res2,
        decreases cands@.len(), thr,
    {
        let ghost wr = sketch.words@;
        let ghost c0 = cands@;
        let ghost f0 = found@;
        let scores = sketch.decode(&cands);
        let n = cands.len();
        let mut next: Vec<V> = Vec::new();
        let mut accepted: usize = 0;
        let mut j: usize = 0;
        proof {
            reveal(Seq::filter);
            assert(c0.take(0) =~= Seq::<V>::empty());
            assert(accepted_of(wr, c0.take(0), thr, p as int, bits) =~= Seq::<V>::empty());
            assert(rejected_of(wr, c0.take(0), thr, p as int, bits) =~= Seq::<V>::empty());
            assert(found@ =~= f0 + accepted_of(wr, c0.take(0), thr, p as int, bits));
            assert(cands@ =~= c0.skip(0));
        }
        while cands.len() > 0
            invariant
                sketch.wf(),
                sketch.base_length == base0,
                sketch.level == level0,
                sketch.points == p,
                p > 0 ==> sketch.words@.len() > 0,
                sketch.bits_spec() == bits,
                thr <= p,
                n == c0.len(),
                j <= n,
                j + cands@.len() == n,
                cands@ == c0.skip(j as int),
                scores@.len() == n,
                forall|k: int| 0 <= k < n ==> scores@[k] == score(wr, c0[k], p as int, bits),
                forall|k: int, i: u64| 0 <= k < c0.len() && i < p ==> #[trigger] c0[k].slot_ok(i),
                forall|k: int, i: u64|
                    0 <= k < next@.len() && i < p ==> #[trigger] next@[k].slot_ok(i),
                found@ == f0 + accepted_of(wr, c0.take(j as int), thr, p as int, bits),
                next@ == rejected_of(wr, c0.take(j as int), thr, p as int, bits),
                accepted == accepted_of(wr, c0.take(j as int), thr, p as int, bits).len(),
                accepted <= j,
                sketch.words@ == toggle_seq(
                    wr,
                    accepted_of(wr, c0.take(j as int), thr, p as int, bits),
                    p as int,
                    bits,
                ),
            decreases cands@.len(),
        {
            let item = cands.remove(0);
            proof {
                assert(item == c0[j as int]);
                assert(c0.skip(j as int).remove(0) =~= c0.skip(j as int + 1));
                assert(c0.take(j as int + 1).drop_last() =~= c0.take(j as int));
                assert(c0.take(j as int + 1).last() == c0[j as int]);
                lemma_round_step(wr, c0.take(j as int + 1), thr, p as int, bits);
            }
            if scores[j] >= thr as usize {
                sketch.toggle(&item);
                found.push(item);
                accepted = accepted + 1;
                proof {
                    let aj = accepted_of(wr, c0.take(j as int), thr, p as int, bits);
                    assert(accepted_of(wr, c0.take(j as int + 1), thr, p as int, bits) == aj.push(
                        c0[j as int],
                    ));
                    assert(aj.push(c0[j as int]).drop_last() =~= aj);
                    assert(toggle_seq(wr, aj.push(c0[j as int]), p as int, bits) == toggled(
                        toggle_seq(wr, aj, p as int, bits),
                        c0[j as int],
                        p as int,
                        bits,
                    ));
                    assert(found@ =~= f0 + aj.push(c0[j as int]));
                }
            } else {
                next.push(item);
                proof {
                    let rj = rejected_of(wr, c0.take(j as int), thr, p as int, bits);
                    assert(rejected_of(wr, c0.take(j as int + 1), thr, p as int, bits) == rj.push(
                        c0[j as int],
                    ));
                }
            }
            j = j + 1;
        }
        proof {
            assert(c0.take(n as int) =~= c0);
            lemma_round_partition(wr, c0, thr, p as int, bits);
        }
        let ghost f_round = accepted_of(wr, c0, thr, p as int, bits);
        let ghost r_round = rejected_of(wr, c0, thr, p as int, bits);
        cands = next;
        if accepted == 0 {
            proof {
                assert(f_round.len() == 0);
                assert(f_round =~= Seq::<V>::empty());
                assert(sketch.words@ == toggle_seq(wr, f_round, p as int, bits));
                assert(sketch.words@ == wr);
                assert(cands@ == c0);
            }
            if thr > floor_threshold {
                thr = thr - 1;
            } else {
                proof {
                    assert(peel_spec(wr, c0, thr, floor_threshold, p as int, bits) == (
                        wr,
                        Seq::<V>::empty(),
                        c0,
                    ));
                    assert(res1.skip(f0.len() as int).len() == 0);
                    assert(res1.len() == f0.len());
                    assert(res1.take(f0.len() as int) =~= res1);
                }
                break ;
            }
        } else {
            proof {
                let n0 = f0.len() as int;
                let rec = peel_spec(
                    toggle_seq(wr, f_round, p as int, bits),
                    r_round,
                    thr,
                    floor_threshold,
                    p as int,
                    bits,
                );
                assert(f_round.len() > 0);
                assert(peel_spec(wr, c0, thr, floor_threshold, p as int, bits) == (
                    rec.0,
                    f_round + rec.1,
                    rec.2,
                ));
                assert(rec.0 == res0);
                assert(f_round + rec.1 == res1.skip(n0));
                assert(rec.2 == res2);
                let n1 = n0 + f_round.len() as int;
                assert(res1.skip(n0).len() == res1.len() - n0);
                assert(n1 <= res1.len());
                assert forall|i: int| 0 <= i < f_round.len() implies f_round[i] == res1[n0 + i] by {
                    assert((f_round + rec.1)[i] == f_round[i]);
                    assert(res1.skip(n0)[i] == res1[n0 + i]);
                }
                assert(found@ =~= res1.take(n1));
                assert forall|i: int| 0 <= i < rec.1.len() implies rec.1[i] == res1[n1 + i] by {
                    assert((f_round + rec.1)[f_round.len() + i] == rec.1[i]);
                    assert(res1.skip(n0)[f_round.len() + i] == res1[n0 + f_round.len() + i]);
                }
                assert(rec.1 =~= res1.skip(n1));
            }
        }
    }
    (found, cands)
}

} // verus!
