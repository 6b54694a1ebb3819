use columnar::bitmap::BitVec;

/// Pushes the bits of each byte, least-significant first.
fn fill(vec: &mut BitVec, bytes: &[u8]) {
    for &byte in bytes {
        for i in 0..8 {
            vec.push((byte >> i) & 1 == 1);
        }
    }
}

#[test]
fn bitmap_push() {
    let mut vec = BitVec::new();
    vec.push(true);
    vec.push(false);
    vec.push(false);
    vec.push(true);
    vec.push(true);
    vec.push(false);

    assert_eq!(*vec.bytes(), vec![0b00011001]);

    vec.push(true);
    vec.push(true);
    vec.push(true);
    assert_eq!(*vec.bytes(), vec![0b11011001, 0b00000001]);
}

#[test]
fn bitmap_pop() {
    let mut vec = BitVec::new();
    fill(&mut vec, &[0xFF, 0xF5, 0x42]); // 11111111 11110101 01000010
    assert_eq!(vec.pop(), false);
    assert_eq!(vec.pop(), true);
    assert_eq!(vec.pop(), false);
    assert_eq!(vec.pop(), false);
    assert_eq!(vec.pop(), false);
    assert_eq!(vec.pop(), false);
    assert_eq!(vec.pop(), true);
    assert_eq!(vec.pop(), false);
    assert_eq!(vec.pop(), true);
    assert_eq!(vec.pop(), true);
    assert_eq!(vec.pop(), true);
    assert_eq!(vec.pop(), true);
    assert_eq!(vec.pop(), false);
    assert_eq!(vec.pop(), true);
    assert_eq!(vec.pop(), false);
    assert_eq!(vec.pop(), true);
    assert_eq!(vec.pop(), true);
    assert_eq!(vec.pop(), true);
    assert_eq!(vec.pop(), true);
    assert_eq!(vec.pop(), true);
    assert_eq!(vec.pop(), true);
    assert_eq!(vec.pop(), true);
    assert_eq!(vec.pop(), true);
    assert_eq!(vec.pop(), true);
}

#[test]
fn bitmap_swap() {
    let mut vec = BitVec::new();
    fill(&mut vec, &[0xFF, 0xF5, 0x42]); // 11111111 11110101 01000010

    vec.swap(23, 17);
    assert_eq!(*vec.bytes(), vec![0xFF, 0xF5, 0b11000000]);

    vec.swap(4, 9);
    assert_eq!(*vec.bytes(), vec![0b11101111, 0b11110111, 0b11000000]);
}

#[test]
fn bitmap_get_some() {
    let mut vec = BitVec::new();
    fill(&mut vec, &[0xFF, 0xF5, 0x42]); // 11111111 11110101 01000010

    assert_eq!(vec.get(3), Some(true));
    assert_eq!(vec.get(16), Some(false));
}

#[test]
#[should_panic]
fn bitmap_get_none() {
    let mut vec = BitVec::new();
    fill(&mut vec, &[0xFF, 0xF5, 0x42]); // 11111111 11110101 01000010

    vec.get(24).unwrap();
}

#[test]
fn bitmap_push_pop_reverse() {
    // the push/pop inverse law on concrete values: popping returns the
    // pushed bits in exact reverse order
    let pushed = [true, false, false, true, true, false];
    let mut vec = BitVec::new();
    for &b in &pushed {
        vec.push(b);
    }
    for &b in pushed.iter().rev() {
        assert_eq!(vec.pop(), b);
    }
    assert_eq!(*vec.bytes(), Vec::<u8>::new());
}

#[test]
fn bitmap_swap_law_values() {
    // the swap law on concrete values: the two bits trade places and the
    // rest stay put
    let mut vec = BitVec::new();
    fill(&mut vec, &[0b00000001]);
    let before: Vec<Option<bool>> = (0..8).map(|i| vec.get(i)).collect();
    vec.swap(0, 5);
    assert_eq!(vec.get(0), before[5]);
    assert_eq!(vec.get(5), before[0]);
    for i in [1, 2, 3, 4, 6, 7] {
        assert_eq!(vec.get(i), before[i]);
    }
}
