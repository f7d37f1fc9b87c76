use petronel::circular_buffer::CircularBuffer;

fn snapshot(buf: &CircularBuffer<i32>) -> Vec<i32> {
    buf.as_unordered_slice().to_vec()
}

#[test]
fn empty_buffer_has_empty_snapshot() {
    let buf: CircularBuffer<i32> = CircularBuffer::with_capacity(4);
    assert_eq!(buf.len(), 0);
    assert!(snapshot(&buf).is_empty());
}

#[test]
fn below_capacity_keeps_everything_in_push_order() {
    let mut buf = CircularBuffer::with_capacity(3);
    buf.push(10);
    buf.push(20);
    assert_eq!(snapshot(&buf), vec![10, 20]);
}

#[test]
fn capacity_two_keeps_exactly_the_last_two() {
    // capacity = 2; push S1, S2, S3: the snapshot must be exactly {S2, S3},
    // in any order (S1 evicted).
    let mut buf = CircularBuffer::with_capacity(2);
    buf.push(1);
    buf.push(2);
    buf.push(3);
    let mut snap = snapshot(&buf);
    snap.sort();
    assert_eq!(snap, vec![2, 3]);
}

#[test]
fn long_run_keeps_most_recent_window() {
    let mut buf = CircularBuffer::with_capacity(3);
    for i in 0..10 {
        buf.push(i);
    }
    let mut snap = snapshot(&buf);
    snap.sort();
    assert_eq!(snap, vec![7, 8, 9]);
}

#[test]
fn capacity_zero_discards_all_pushes() {
    let mut buf = CircularBuffer::with_capacity(0);
    buf.push(1);
    buf.push(2);
    assert_eq!(buf.len(), 0);
    assert!(snapshot(&buf).is_empty());
}

#[test]
fn duplicates_are_kept_with_multiplicity() {
    let mut buf = CircularBuffer::with_capacity(4);
    buf.push(7);
    buf.push(7);
    assert_eq!(snapshot(&buf), vec![7, 7]);
}
