use sentinel::ring::RingBuf;

#[test]
fn keeps_last_capacity_entries() {
    let mut b = RingBuf::new(3);
    for s in ["1", "2", "3", "4", "5"] {
        b.push(s);
    }
    assert_eq!(b.contents(), "3\n4\n5\n");
}

#[test]
fn capacity_two_overwrites_oldest() {
    let mut b = RingBuf::new(2);
    b.push("a");
    b.push("b");
    b.push("c");
    assert_eq!(b.contents(), "b\nc\n");
}

#[test]
fn empty_contents_is_empty() {
    let b = RingBuf::new(4);
    assert_eq!(b.contents(), "");
}

#[test]
fn fewer_than_capacity_in_order() {
    let mut b = RingBuf::new(10);
    b.push("x");
    b.push("y");
    assert_eq!(b.contents(), "x\ny\n");
}

#[test]
fn clear_then_refill_like_fresh() {
    let mut b = RingBuf::new(2);
    b.push("a");
    b.push("b");
    b.push("c");
    b.clear();
    assert_eq!(b.contents(), "");
    b.push("p");
    b.push("q");
    assert_eq!(b.contents(), "p\nq\n");
}

#[test]
fn capacity_one_keeps_only_newest() {
    let mut b = RingBuf::new(1);
    b.push("a");
    b.push("b");
    assert_eq!(b.contents(), "b\n");
}

#[test]
fn wraps_repeatedly() {
    let mut b = RingBuf::new(2);
    for s in ["a", "b", "c", "d", "e", "f", "g"] {
        b.push(s);
    }
    assert_eq!(b.contents(), "f\ng\n");
}
