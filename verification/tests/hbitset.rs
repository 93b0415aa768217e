use fuzzcheck::hbitset::{HBitSet, SIZE};

#[test]
fn new_set_is_empty() {
    let mut set = HBitSet::new();
    assert!(set.is_empty());
    assert_eq!(set.drain(), Vec::<usize>::new());
}

#[test]
fn drain_gives_each_key_once_and_empties() {
    let mut set = HBitSet::new();
    let keys: [usize; 7] = [9, 0, 64, 4095, 4096, SIZE - 1, 123_456_789];
    for k in keys {
        set.set(k);
    }
    assert!(!set.is_empty());
    let drained = set.drain();
    assert_eq!(drained, vec![0, 9, 64, 4095, 4096, 123_456_789, SIZE - 1]);
    assert!(set.is_empty());
    assert_eq!(set.drain(), Vec::<usize>::new());
}

#[test]
fn set_is_idempotent() {
    let mut set = HBitSet::new();
    set.set(42);
    set.set(42);
    set.set(42);
    assert_eq!(set.drain(), vec![42]);
}

#[test]
fn keys_of_one_word_come_out_in_order() {
    let mut set = HBitSet::new();
    for k in (128..192).rev() {
        set.set(k);
    }
    let expected: Vec<usize> = (128..192).collect();
    assert_eq!(set.drain(), expected);
}

#[test]
fn set_can_be_filled_again_after_drain() {
    let mut set = HBitSet::new();
    set.set(5);
    assert_eq!(set.drain(), vec![5]);
    set.set(6);
    set.set(70_000);
    assert_eq!(set.drain(), vec![6, 70_000]);
    assert!(set.is_empty());
}
