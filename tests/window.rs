use temp_graph::CircularBuffer;

#[test]
fn overfill1() {
    let mut buffer = CircularBuffer::<i32, 3>::new();
    buffer.push(1);
    buffer.push(2);
    buffer.push(3);
    buffer.push(4);
    assert_eq!(buffer.as_slice(), &[2, 3, 4]);
}

#[test]
fn overfill2() {
    let mut buffer = CircularBuffer::<i32, 2>::new();
    for i in 0..10 {
        buffer.push(i);
    }
    assert_eq!(buffer.as_slice(), &[8, 9]);
}

#[test]
fn zip_with() {
    let mut buffer1 = CircularBuffer::<i32, 3>::new();
    let mut buffer2 = CircularBuffer::<i32, 3>::new();
    buffer1.push(1);
    buffer1.push(2);
    buffer1.push(3);
    buffer2.push(4);
    buffer2.push(5);
    buffer2.push(6);
    buffer1.zip_with(&buffer2, |x, y| x + y);
    assert_eq!(buffer1.as_slice(), &[5, 7, 9]);
}

#[test]
fn iter() {
    let mut buffer = CircularBuffer::<i32, 3>::new();
    buffer.push(1);
    buffer.push(2);
    buffer.push(3);
    let mut iter = buffer.into_iter();
    assert_eq!(iter.next(), Some(1));
    assert_eq!(iter.next(), Some(2));
    assert_eq!(iter.next(), Some(3));
    assert_eq!(iter.next(), None);
}

#[test]
fn push_then_head() {
    for s in 0..10u8 {
        let mut buffer = CircularBuffer::<u8, 3>::new();
        buffer.push(s);
        assert_eq!(buffer.head(), Some(s));
    }
}

#[test]
fn empty_window() {
    let buffer = CircularBuffer::<i32, 4>::new();
    assert_eq!(buffer.as_slice(), &[] as &[i32]);
    assert_eq!(buffer.head(), None);
    assert_eq!(buffer.last(), None);
    assert!(!buffer.is_full());
    let mut iter = buffer.into_iter();
    assert_eq!(iter.next(), None);
}

#[test]
fn oldest_and_newest() {
    let mut buffer = CircularBuffer::<i32, 3>::new();
    buffer.push(7);
    buffer.push(8);
    assert_eq!(buffer.last(), Some(7));
    assert_eq!(buffer.head(), Some(8));
    assert!(!buffer.is_full());
    buffer.push(9);
    assert!(buffer.is_full());
    buffer.push(10);
    assert_eq!(buffer.last(), Some(8));
    assert_eq!(buffer.head(), Some(10));
    assert!(buffer.is_full());
}

#[test]
fn window_is_last_pushed_values() {
    // Long enough to run through the copy-down several times.
    for k in 0..40i32 {
        let mut buffer = CircularBuffer::<i32, 5>::new();
        for v in 0..k {
            buffer.push(v * 3);
        }
        let first = if k > 5 { k - 5 } else { 0 };
        let expected: Vec<i32> = (first..k).map(|v| v * 3).collect();
        assert_eq!(buffer.as_slice(), expected.as_slice());
        assert_eq!(buffer.as_slice().len(), (k.min(5)) as usize);
    }
}

#[test]
fn single_slot_keeps_newest() {
    let mut buffer = CircularBuffer::<i32, 1>::new();
    assert!(buffer.as_slice().is_empty());
    for v in [4, -2, 9, 9, 0] {
        buffer.push(v);
        assert_eq!(buffer.as_slice(), &[v]);
        assert!(buffer.is_full());
    }
}

#[test]
fn zip_with_stops_at_shorter() {
    let mut buffer1 = CircularBuffer::<i32, 4>::new();
    let mut buffer2 = CircularBuffer::<i32, 2>::new();
    for v in [1, 2, 3, 4] {
        buffer1.push(v);
    }
    buffer2.push(10);
    buffer2.push(20);
    buffer1.zip_with(&buffer2, |x, y| x * y);
    assert_eq!(buffer1.as_slice(), &[10, 40, 3, 4]);
    assert_eq!(buffer2.as_slice(), &[10, 20]);
}

#[test]
fn zip_with_aligns_by_age() {
    // Both windows have wrapped, at different offsets in their stores.
    let mut buffer1 = CircularBuffer::<i32, 3>::new();
    let mut buffer2 = CircularBuffer::<i32, 3>::new();
    for v in 0..7 {
        buffer1.push(v);
    }
    for v in 0..5 {
        buffer2.push(100 * v);
    }
    buffer1.zip_with(&buffer2, |x, y| x + y);
    assert_eq!(buffer1.as_slice(), &[204, 305, 406]);
}

#[test]
fn zip_with_no_op_keeps_both() {
    let mut buffer1 = CircularBuffer::<i32, 3>::new();
    let mut buffer2 = CircularBuffer::<i32, 3>::new();
    for v in [1, 2, 3, 4] {
        buffer1.push(v);
        buffer2.push(-v);
    }
    buffer1.zip_with(&buffer2, |x, _y| x);
    assert_eq!(buffer1.as_slice(), &[2, 3, 4]);
    assert_eq!(buffer2.as_slice(), &[-2, -3, -4]);
}

#[test]
fn iter_restarts_and_follows_eviction() {
    let mut buffer = CircularBuffer::<i32, 2>::new();
    for v in 1..6 {
        buffer.push(v);
    }
    for _ in 0..2 {
        let mut iter = buffer.into_iter();
        assert_eq!(iter.next(), Some(4));
        assert_eq!(iter.next(), Some(5));
        assert_eq!(iter.next(), None);
        assert_eq!(iter.next(), None);
    }
}
