use bcsk::BinaryCountSketch;
use bcsk::TestItem;
use bcsk::peel_decode;

#[test]
fn test_toggle_exact_bits() {
    // 1 word, 64 bits, 2 points: codes 0 and 65 address bits 0 and 1.
    let mut sketch = BinaryCountSketch::new(1, 0, 2);
    let item = TestItem::from_codes(vec![0, 65]);

    sketch.toggle(&item);
    assert_eq!(sketch.words[0], 3);
    assert_eq!(sketch.check(&item), 2);

    // Toggling again restores the empty array and the empty score.
    sketch.toggle(&item);
    assert_eq!(sketch.words[0], 0);
    assert_eq!(sketch.check(&item), 0);
}

#[test]
fn test_toggle_colliding_addresses() {
    // Codes 0 and 64 both address bit 0: the two flips cancel.
    let mut sketch = BinaryCountSketch::new(1, 0, 2);
    let item = TestItem::from_codes(vec![0, 64]);

    sketch.toggle(&item);
    assert_eq!(sketch.words[0], 0);
    assert_eq!(sketch.check(&item), 0);
}

#[test]
fn test_decode_matches_check() {
    let mut sketch = BinaryCountSketch::new(2, 1, 3);
    let a = TestItem::from_codes(vec![1, 2, 3]);
    let b = TestItem::from_codes(vec![100, 200, 201]);
    sketch.toggle(&a);

    let scores = sketch.decode(&vec![a.clone(), b.clone()]);
    assert_eq!(scores.len(), 2);
    assert_eq!(scores[0], sketch.check(&a));
    assert_eq!(scores[1], sketch.check(&b));
    assert_eq!(scores[0], 3);
    assert_eq!(scores[1], 0);
}

#[test]
fn test_diff_error_priority() {
    // Base length differs: reported first even when everything else differs.
    let mut s1 = BinaryCountSketch::new(2, 1, 3);
    let s2 = BinaryCountSketch::new(3, 2, 4);
    let e = s1.diff_with(&s2).unwrap_err();
    assert_eq!(e.message(), "Incorrect base length");

    // Base lengths equal, levels differ.
    let mut s1 = BinaryCountSketch::new(2, 1, 3);
    let s2 = BinaryCountSketch::new(2, 2, 4);
    let e = s1.diff_with(&s2).unwrap_err();
    assert_eq!(e.message(), "Incorrect level");

    // Base lengths and levels equal, points differ.
    let mut s1 = BinaryCountSketch::new(2, 1, 3);
    let s2 = BinaryCountSketch::new(2, 1, 4);
    let e = s1.diff_with(&s2).unwrap_err();
    assert_eq!(e.message(), "Incorrect points");

    // Configurations equal but word arrays of different length.
    let mut s1 = BinaryCountSketch::new(2, 1, 3);
    let mut s2 = BinaryCountSketch::new(2, 1, 3);
    s2.words.push(0);
    let e = s1.diff_with(&s2).unwrap_err();
    assert_eq!(e.message(), "Incorrect words length");

    // Matching configurations never error.
    let mut s1 = BinaryCountSketch::new(2, 1, 3);
    let s2 = BinaryCountSketch::new(2, 1, 3);
    assert!(s1.diff_with(&s2).is_ok());
}

#[test]
fn test_diff_xor_exact() {
    let mut s1 = BinaryCountSketch::new(1, 0, 2);
    let mut s2 = BinaryCountSketch::new(1, 0, 2);
    let a = TestItem::from_codes(vec![0, 65]);
    let b = TestItem::from_codes(vec![1, 66]);
    s1.toggle(&a);
    s2.toggle(&b);
    // words: s1 = bits {0,1} = 3, s2 = bits {1,2} = 6; XOR = bits {0,2} = 5.
    s1.diff_with(&s2).expect("No errors");
    assert_eq!(s1.words[0], 5);
}

#[test]
fn test_level_down_domain() {
    let mut sketch = BinaryCountSketch::new(1, 1, 1);
    let a = TestItem::from_codes(vec![0]);
    let b = TestItem::from_codes(vec![65]);
    sketch.toggle(&a);
    sketch.toggle(&b);
    // Two words: bit 0 of word 0, bit 1 of word 1.
    assert_eq!(sketch.words, vec![1, 2]);
    assert_eq!(sketch.bits(), 128);

    // A fold must go strictly down.
    let e = sketch.level_down(1).unwrap_err();
    assert_eq!(e.message(), "Incorrect level");
    let e = sketch.level_down(5).unwrap_err();
    assert_eq!(e.message(), "Incorrect level");

    // One level down halves the word count and XOR-folds the halves.
    let folded = sketch.level_down(0).expect("No errors");
    assert_eq!(folded.bits(), 64);
    assert_eq!(folded.words, vec![3]);
    // The source sketch is untouched.
    assert_eq!(sketch.words, vec![1, 2]);
}

#[test]
fn test_estimate_stats_with_exact() {
    let mut sketch = BinaryCountSketch::new(1, 0, 2);
    let item = TestItem::from_codes(vec![0, 65]);
    sketch.toggle(&item);
    // Bits 0 and 1 are set.
    let probes = vec![
        TestItem::from_codes(vec![0, 1]),  // score 2
        TestItem::from_codes(vec![2, 3]),  // score 0
        TestItem::from_codes(vec![1, 2]),  // score 1
    ];
    let (fpos, fneg) = sketch.estimate_stats_with(&probes, 1).expect("No errors");
    // False positives: scores >= 1. False negatives: 2 - score < 1.
    assert_eq!(fpos, 2);
    assert_eq!(fneg, 1);
}

#[test]
fn test_estimate_stats_threshold_domain() {
    let sketch = BinaryCountSketch::new(10, 6, 3);
    // One above the points count is rejected.
    let e = sketch.estimate_stats(100, 4).unwrap_err();
    assert_eq!(e.message(), "Incorrect threshold");
    // The points count itself is accepted.
    assert!(sketch.estimate_stats(100, 3).is_ok());

    let probes = vec![TestItem::from_codes(vec![0, 1, 2])];
    let e = sketch.estimate_stats_with(&probes, 4).unwrap_err();
    assert_eq!(e.message(), "Incorrect threshold");
}

#[test]
fn test_estimate_stats_threshold_zero() {
    // At threshold zero every probe counts as a false positive and none as
    // a false negative, whatever the sketch holds.
    let mut sketch = BinaryCountSketch::new(2, 1, 3);
    sketch.toggle(&TestItem::from_codes(vec![1, 2, 3]));
    let (fpos, fneg) = sketch.estimate_stats(50, 0).expect("No errors");
    assert_eq!(fpos, 50);
    assert_eq!(fneg, 0);
}

#[test]
fn test_estimate_stats_empty_sketch() {
    // On an all-zero sketch every probe scores zero, so any threshold
    // between one and the points count tallies (0, 0).
    let sketch = BinaryCountSketch::new(2, 1, 3);
    for threshold in 1..=3 {
        let (fpos, fneg) = sketch.estimate_stats(100, threshold).expect("No errors");
        assert_eq!(fpos, 0);
        assert_eq!(fneg, 0);
    }
}

#[test]
fn test_peel_decode_deterministic() {
    // One word, one point. Only item `a` is in the sketch.
    let mut sketch = BinaryCountSketch::new(1, 0, 1);
    let a = TestItem::from_codes(vec![5]);
    let b = TestItem::from_codes(vec![9]);
    sketch.toggle(&a);

    let (found, remaining) = peel_decode(&mut sketch, vec![a.clone(), b.clone()], 1);
    assert_eq!(found.len(), 1);
    assert!(found[0] == a);
    assert_eq!(remaining.len(), 1);
    assert!(remaining[0] == b);
    // The accepted item was toggled out.
    assert_eq!(sketch.words[0], 0);
}

#[test]
fn test_peel_decode_scenario() {
    let mut sketch1 = BinaryCountSketch::new(100, 2, 5);
    let mut sketch2 = BinaryCountSketch::new(100, 2, 5);

    for _ in 0..16200 {
        let item: TestItem = TestItem::new();
        sketch1.toggle(&item);
        sketch2.toggle(&item);
    }

    let mut extra1 = vec![];
    for _ in 0..162 {
        let item: TestItem = TestItem::new();
        sketch1.toggle(&item);
        extra1.push(item);
        let item: TestItem = TestItem::new();
        sketch2.toggle(&item);
    }

    sketch2.diff_with(&sketch1).expect("No errors");

    let (found, remaining) = peel_decode(&mut sketch2, extra1.clone(), 4);
    assert_eq!(found.len() + remaining.len(), 162);
    // Recovers the large majority of the true members.
    assert!(found.len() >= 130);
    for item in &found {
        assert!(extra1.contains(item));
    }
}
