use bcsk::BinaryCountSketch;
use bcsk::TestItem;

#[test]
fn test_basics() {
    let item: TestItem = TestItem::new();
    let mut sketch = BinaryCountSketch::new(10, 6, 3);

    // Check empty filter
    assert_eq!(sketch.check(&item), 0);

    // Add to filter
    sketch.toggle(&item);
    assert_eq!(sketch.check(&item), 3);

    // Remove from filter
    sketch.toggle(&item);
    assert_eq!(sketch.check(&item), 0);
}

#[test]
fn test_decode() {
    let item: TestItem = TestItem::new();
    let mut sketch = BinaryCountSketch::new(10, 6, 3);

    // Check empty filter
    assert_eq!(sketch.decode(&vec![item.clone()]), vec![0]);

    // Add to filter
    sketch.toggle(&item);
    assert_eq!(sketch.decode(&vec![item.clone()]), vec![3]);

    // Remove from filter
    sketch.toggle(&item);
    assert_eq!(sketch.decode(&vec![item.clone()]), vec![0]);
}

#[test]
fn test_stats() {
    let item: TestItem = TestItem::new();
    let mut sketch = BinaryCountSketch::new(10, 6, 3);

    // Add to filter
    sketch.toggle(&item);
    assert_eq!(sketch.decode(&vec![item.clone()]), vec![3]);

    let (fpos, fneg) = sketch.estimate_stats(100, 2).expect("No errors");
    assert!(fpos < 5);
    assert!(fneg < 5)
}

#[test]
fn test_diff() {
    let item: TestItem = TestItem::new();
    let item2: TestItem = TestItem::new();
    let item3: TestItem = TestItem::new();
    let mut sketch1 = BinaryCountSketch::new(10, 6, 3);
    let mut sketch2 = BinaryCountSketch::new(10, 6, 3);

    // Add to filter
    sketch1.toggle(&item);
    sketch1.toggle(&item2);
    sketch2.toggle(&item);
    sketch2.toggle(&item3);
    assert_eq!(sketch1.decode(&vec![item.clone()]), vec![3]);

    sketch1.diff_with(&sketch2).expect("No errors");
    assert_eq!(sketch1.decode(&vec![item.clone()]), vec![0]);
    assert_eq!(sketch1.decode(&vec![item2.clone()]), vec![3]);
    assert_eq!(sketch1.decode(&vec![item3.clone()]), vec![3]);
}

#[test]
fn test_stats_bad() {
    let mut sketch = BinaryCountSketch::new(1, 0, 3);

    // Add to filter
    for _ in 0..162 {
        let item: TestItem = TestItem::new();
        println!("{:?}", item.points);
        sketch.toggle(&item);
    }

    assert!(sketch.words.len() == 1);
    assert!(sketch.words[0] != 0);

    let (fpos, fneg) = sketch.estimate_stats(100, 2).expect("No errors");
    assert!(fpos > 10);
    assert!(fneg > 10)
}

#[test]
fn test_diff_decode() {
    let mut sketch1 = BinaryCountSketch::new(100, 2, 5);
    let mut sketch2 = BinaryCountSketch::new(100, 2, 5);

    // Add to filter
    let mut common = vec![];
    for _ in 0..16200 {
        let item: TestItem = TestItem::new();
        sketch1.toggle(&item);
        sketch2.toggle(&item);
        common.push(item);
    }

    let mut extra1 = vec![];
    for _ in 0..162 {
        let item: TestItem = TestItem::new();
        sketch1.toggle(&item);
        extra1.push(item);
        let item: TestItem = TestItem::new();
        sketch2.toggle(&item);
    }

    sketch2.diff_with(&sketch1).expect("No errors");
    let (fpos, fneg) = sketch2.estimate_stats(100, 4).expect("no errors");

    println!("{} bits {} bytes", sketch2.bits(), sketch2.bits() / 8);
    println!("{} {}", fpos, fneg);
    println!(
        "{:?}",
        sketch2
            .decode(&extra1)
            .into_iter()
            .filter(|x| *x >= 4)
            .count() as f64
            / 162.0
    );
    println!(
        "{:?}",
        sketch2
            .decode(&common)
            .into_iter()
            .filter(|x| *x >= 4)
            .count() as f64
            / 16200.0
    );

    assert!(fpos < 10);
    assert!(fneg < 10);
}
