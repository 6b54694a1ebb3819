use columnar::bitvec::BitVec;

/// Pushes the bits of each byte, least-significant first.
fn fill(vec: &mut BitVec, bytes: &[u8]) {
    for &byte in bytes {
        for i in 0..8 {
            vec.push((byte >> i) & 1 == 1);
        }
    }
}

/// A bitmap holding exactly the given bits, in order.
fn bits(values: &[bool]) -> BitVec {
    let mut vec = BitVec::new();
    for &b in values {
        vec.push(b);
    }
    vec
}

#[test]
fn bitvec_push() {
    let mut vec = BitVec::new();
    vec.push(true);
    vec.push(false);
    vec.push(false);
    vec.push(true);
    vec.push(true);
    vec.push(false);

    assert_eq!(*vec.bytes(), vec![0b00011001]);

    vec.push(true);
    vec.push(true);
    vec.push(true);
    assert_eq!(*vec.bytes(), vec![0b11011001, 0b00000001]);
}

#[test]
fn bitvec_pop() {
    let mut vec = BitVec::new();
    fill(&mut vec, &[0xFF, 0xF5, 0x42]); // 11111111 11110101 01000010
    assert_eq!(vec.pop(), false);
    assert_eq!(vec.pop(), true);
    assert_eq!(vec.pop(), false);
    assert_eq!(vec.pop(), false);
    assert_eq!(vec.pop(), false);
    assert_eq!(vec.pop(), false);
    assert_eq!(vec.pop(), true);
    assert_eq!(vec.pop(), false);
    assert_eq!(vec.pop(), true);
    assert_eq!(vec.pop(), true);
    assert_eq!(vec.pop(), true);
    assert_eq!(vec.pop(), true);
    assert_eq!(vec.pop(), false);
    assert_eq!(vec.pop(), true);
    assert_eq!(vec.pop(), false);
    assert_eq!(vec.pop(), true);
    assert_eq!(vec.pop(), true);
    assert_eq!(vec.pop(), true);
    assert_eq!(vec.pop(), true);
    assert_eq!(vec.pop(), true);
    assert_eq!(vec.pop(), true);
    assert_eq!(vec.pop(), true);
    assert_eq!(vec.pop(), true);
    assert_eq!(vec.pop(), true);
}

#[test]
fn bitvec_swap() {
    let mut vec = BitVec::new();
    fill(&mut vec, &[0xFF, 0xF5, 0x42]); // 11111111 11110101 01000010

    vec.swap(23, 17);
    assert_eq!(*vec.bytes(), vec![0xFF, 0xF5, 0b11000000]);

    vec.swap(4, 9);
    assert_eq!(*vec.bytes(), vec![0b11101111, 0b11110111, 0b11000000]);
}

#[test]
fn bitvec_get_some() {
    let mut vec = BitVec::new();
    fill(&mut vec, &[0xFF, 0xF5, 0x42]); // 11111111 11110101 01000010

    assert_eq!(vec.get(3), Some(true));
    assert_eq!(vec.get(16), Some(false));
}

#[test]
#[should_panic]
fn bitvec_get_none() {
    let mut vec = BitVec::new();
    fill(&mut vec, &[0xFF, 0xF5, 0x42]); // 11111111 11110101 01000010

    vec.get(24).unwrap();
}

#[test]
fn bitvec_len_counts_bits() {
    let mut vec = BitVec::new();
    assert_eq!(vec.len(), 0);
    vec.push(true);
    vec.push(false);
    vec.push(true);
    assert_eq!(vec.len(), 3);
    vec.pop();
    assert_eq!(vec.len(), 2);
}

#[test]
fn bitvec_null_count_tracks_false_bits() {
    let mut vec = bits(&[true, false, false, true]);
    assert_eq!(vec.null_count(), 2);

    // overwrite-to-true lowers the count; overwrite-to-false raises it
    vec.set(1, true);
    assert_eq!(vec.null_count(), 1);
    vec.set(0, false);
    assert_eq!(vec.null_count(), 2);
    vec.set(0, false);
    assert_eq!(vec.null_count(), 2);

    // popping a false bit lowers the count
    vec.pop();
    assert_eq!(vec.null_count(), 2);
    vec.pop();
    assert_eq!(vec.null_count(), 1);

    // swapping never changes the count
    vec.push(false);
    vec.swap(0, 2);
    assert_eq!(vec.null_count(), 2);
}

#[test]
fn bitvec_equality_is_field_wise() {
    let a = bits(&[true, false, true]);
    let b = bits(&[true, false, true]);
    let c = bits(&[true, true, true]);
    assert_eq!(a, b);
    assert_ne!(a, c);
}

#[test]
fn bitvec_iter_reads_all_bits() {
    let vec = bits(&[true, false, false, true, true, false, true, true, true]);
    let mut iter = vec.iter();
    let mut got: Vec<bool> = Vec::new();
    while let Some(b) = iter.next() {
        got.push(b);
    }
    assert_eq!(got, vec![true, false, false, true, true, false, true, true, true]);
}
