use audio_graph::{RingBuffer, RingSlice};

#[test]
fn it_works() {}

#[test]
fn it_reads_into() {
    let mut a = RingBuffer::new();
    let mut v = Vec::<i16>::new();

    for i in 0..48 {
        a.buffer.push(i as i16);
    }
    a.end_index = 48;

    assert_eq!(v.len(), 0);
    assert_eq!(a.len(), 48);
    assert_eq!(a.read_into(49, &mut v), 48);
    assert_eq!(v.len(), 48);
    assert_eq!(a.len(), 0);
    assert_eq!(v[0], 0);
}

#[test]
fn it_writes_from() {
    let mut a = RingBuffer::new();
    let mut v = Vec::<i16>::new();

    for i in 0..48 {
        v.push(i as i16);
    }

    assert_eq!(v.len(), 48);
    assert_eq!(a.len(), 0);
    assert_eq!(a.write_from(49, &mut v), 48);
    assert_eq!(v.len(), 48);
    assert_eq!(a.len(), 48);
    assert_eq!(a.end_index, 48);
}

#[test]
fn it_writes_from_ring() {
    let mut a = RingBuffer::new();
    let mut v = Vec::<i16>::new();

    for i in 0..48 {
        v.push(i as i16);
    }
    let mut b = RingBuffer::new();
    b.write_from(48, &v);

    assert_eq!(b.len(), 48);
    assert_eq!(a.len(), 0);
    assert_eq!(a.write_from_ring(49, &mut b), 48);
    assert_eq!(b.len(), 0);
    assert_eq!(a.len(), 48);
    assert_eq!(a.end_index, 48);
    assert_eq!(b.start_index, 48);
}

#[test]
fn it_reads_into_maxlen() {
    let mut a = RingBuffer::new();
    let mut v = Vec::<i16>::new();

    for i in 0..49 {
        a.buffer.push(i as i16);
    }
    a.max_length = 48;
    a.start_index = 24;
    a.end_index = 23;

    assert_eq!(v.len(), 0);
    assert_eq!(a.len(), 48);
    assert_eq!(a.read_into(49, &mut v), 48);
    assert_eq!(v.len(), 48);
    assert_eq!(a.len(), 0);
    assert_eq!(v[0], 24);
}

#[test]
fn it_writes_from_maxlen() {
    let mut a = RingBuffer::new();
    let mut v = Vec::<i16>::new();

    for i in 0..48 {
        v.push(i as i16);
    }
    a.max_length = 48;
    a.start_index = 24;
    a.end_index = 24;

    assert_eq!(v.len(), 48);
    assert_eq!(a.len(), 0);
    assert_eq!(a.write_from(49, &mut v), 48);
    assert_eq!(v.len(), 48);
    assert_eq!(a.len(), 48);
    assert_eq!(a.end_index, 23);
}

#[test]
fn it_writes_from_ring_maxlen() {
    let mut a = RingBuffer::new();
    let mut v = Vec::<i16>::new();

    for i in 0..48 {
        v.push(i as i16);
    }
    a.max_length = 48;
    a.start_index = 24;
    a.end_index = 24;
    let mut b = RingBuffer::new();
    b.max_length = 48;
    b.start_index = 12;
    b.end_index = 12;
    b.write_from(48, &v);
    assert_eq!(b.end_index, 11);

    assert_eq!(b.len(), 48);
    assert_eq!(a.len(), 0);
    assert_eq!(a.write_from_ring(49, &mut b), 48);
    assert_eq!(b.len(), 0);
    assert_eq!(a.len(), 48);
    assert_eq!(a.end_index, 23);
    assert_eq!(b.start_index, 11);
}

fn window_samples(a: &RingBuffer, s: &RingSlice) -> Vec<i16> {
    s.iter(a)
}

#[test]
fn it_iters_slices() {
    let mut a = RingBuffer::new();
    a.max_length = 48;
    let mut v = Vec::<i16>::new();

    for i in 0..48 {
        v.push(i as i16);
    }

    assert_eq!(a.write_from(48, &mut v), 48);
    let s = a.read_slice(48);
    for (i, v) in window_samples(&a, &s).iter().enumerate() {
        assert_eq!(*v, i as i16);
    }

    let s = a.write_slice(48);
    for i in 0..s.len() {
        s.set(&mut a, i, i as i16 + 1);
    }

    let s = a.read_slice(48);
    for (i, v) in window_samples(&a, &s).iter().enumerate() {
        assert_eq!(*v, i as i16 + 1);
    }

    assert_eq!(a.write_slice(49).len(), 48);
    assert_eq!(a.read_slice(49).len(), 48);
    let s = a.write_slice(49);
    assert_eq!(s.iter(&a).len(), 48);
    let s = a.read_slice(49);
    assert_eq!(s.iter(&a).len(), 48);
    let s = a.write_slice(48);
    assert_eq!(s.iter(&a).len(), 48);
    let s = a.read_slice(48);
    assert_eq!(s.iter(&a).len(), 48);
    let s = a.write_slice(47);
    assert_eq!(s.iter(&a).len(), 47);
    let s = a.read_slice(47);
    assert_eq!(s.iter(&a).len(), 47);
    assert_eq!(a.write_slice(49).len(), 48);
    assert_eq!(a.read_slice(49).len(), 48);
    assert_eq!(a.write_slice(48).len(), 48);
    assert_eq!(a.read_slice(48).len(), 48);
    assert_eq!(a.write_slice(47).len(), 47);
    assert_eq!(a.read_slice(47).len(), 47);
}

fn drain(a: &mut RingBuffer) -> Vec<i16> {
    let mut out = Vec::new();
    let n = a.len();
    a.read_into(n, &mut out);
    out
}

#[test]
fn overflow_keeps_newest_samples() {
    let mut a = RingBuffer::new();
    a.max_length = 48;
    let v: Vec<i16> = (0..100).map(|x| x as i16).collect();
    assert_eq!(a.write_from(30, &v), 30);
    assert_eq!(a.len(), 30);
    assert_eq!(a.write_from(30, &v), 30);
    assert_eq!(a.len(), 48);
    let expected: Vec<i16> = (12..30).chain(0..30).map(|x| x as i16).collect();
    assert_eq!(drain(&mut a), expected);
    assert_eq!(a.len(), 0);
}

#[test]
fn oversized_write_is_clamped_to_capacity() {
    let mut a = RingBuffer::new();
    a.max_length = 48;
    let v: Vec<i16> = (0..100).map(|x| x as i16).collect();
    assert_eq!(a.write_from(100, &v), 48);
    assert_eq!(a.len(), 48);
    let expected: Vec<i16> = (0..48).map(|x| x as i16).collect();
    assert_eq!(drain(&mut a), expected);
}

#[test]
fn wraparound_reads_back_in_order() {
    let mut a = RingBuffer::new();
    a.max_length = 48;
    a.start_index = 37;
    a.end_index = 37;
    let v: Vec<i16> = (1000..1048).map(|x| x as i16).collect();
    assert_eq!(a.write_from(48, &v), 48);
    assert_eq!(a.end_index, 36);
    let s = a.read_slice(48);
    assert_eq!(s.len(), 48);
    assert_eq!(s.iter(&a), v);
    assert_eq!(s.get(&a, 0), 1000);
    assert_eq!(s.get(&a, 47), 1047);
    assert_eq!(a.len(), 0);
}

#[test]
fn ring_transfer_matches_direct_read() {
    let v: Vec<i16> = (0..40).map(|x| (x * 3) as i16).collect();
    let mut src = RingBuffer::new();
    src.write_from(40, &v);
    let mut dst = RingBuffer::new();
    assert_eq!(dst.write_from_ring(25, &mut src), 25);
    assert_eq!(src.len(), 15);
    let moved = drain(&mut dst);
    assert_eq!(moved, v[..25].to_vec());
    assert_eq!(drain(&mut src), v[25..].to_vec());
}

#[test]
fn from_vec_and_clear() {
    let mut a = RingBuffer::from(vec![5, 6, 7]);
    assert_eq!(a.len(), 3);
    assert!(a.active);
    assert_eq!(a.max_length, 32768);
    a.clear();
    assert_eq!(a.len(), 0);
    assert_eq!(a.buffer.len(), 3);
}

#[test]
fn read_slice_past_length_takes_what_is_there() {
    let mut a = RingBuffer::from(vec![1, 2, 3]);
    let s = a.read_slice(10);
    assert_eq!(s.len(), 3);
    assert_eq!(s.iter(&a), vec![1, 2, 3]);
    let mut out = vec![9, 9, 9, 9, 9];
    let mut b = RingBuffer::from(vec![4, 5]);
    assert_eq!(b.read_into(10, &mut out), 2);
    assert_eq!(out, vec![4, 5, 9, 9, 9]);
}

#[test]
fn write_from_read_slice_copies_window() {
    let mut src = RingBuffer::from(vec![10, 20, 30, 40]);
    let s = src.read_slice(3);
    let mut dst = RingBuffer::new();
    assert_eq!(dst.write_from_read_slice(5, &src, &s), 3);
    assert_eq!(drain(&mut dst), vec![10, 20, 30]);
    assert_eq!(src.len(), 1);
}
