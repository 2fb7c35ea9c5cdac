use rlox::rle::Rle;

#[test]
fn first_item() {
    let mut rle: Rle<i32> = Rle::new();
    rle.push(1);
    assert_eq!(rle.get(0), Some(&1));
}

#[test]
fn empty() {
    let rle: Rle<i32> = Rle::new();
    assert_eq!(rle.get(0), None);
}

#[test]
fn same_item() {
    let mut rle: Rle<i32> = Rle::new();
    rle.push(1);
    rle.push(1);
    assert_eq!(rle.get(1), Some(&1));
}

#[test]
fn different_item() {
    let mut rle: Rle<i32> = Rle::new();
    rle.push(1);
    rle.push(2);
    assert_eq!(rle.get(1), Some(&2));
}

#[test]
fn after_same_series() {
    let mut rle: Rle<i32> = Rle::new();
    rle.push(1);
    rle.push(1);
    rle.push(1);
    rle.push(2);
    assert_eq!(rle.get(3), Some(&2));
}

#[test]
fn second_series() {
    let mut rle: Rle<i32> = Rle::new();
    rle.push(1);
    rle.push(1);
    rle.push(2);
    rle.push(2);
    assert_eq!(rle.get(3), Some(&2));
}

#[test]
fn long_runs_expand_positionally() {
    let mut rle: Rle<i32> = Rle::new();
    for _ in 0..10 {
        rle.push(7);
    }
    for _ in 0..5 {
        rle.push(9);
    }
    for i in 0..10 {
        assert_eq!(rle.get(i), Some(&7));
    }
    for i in 10..15 {
        assert_eq!(rle.get(i), Some(&9));
    }
    assert_eq!(rle.get(15), None);
}
