use delay_line::RingBuffer;

fn contents(ring: &RingBuffer) -> Vec<u64> {
    (0..ring.len()).map(|slot| ring.sample(slot)).collect()
}

#[test]
fn new_store_is_silent_with_cursor_on_slot_zero() {
    for size in [1usize, 2, 4, 17, 1000] {
        let ring = RingBuffer::new(size);
        assert_eq!(ring.len(), size);
        assert_eq!(ring.cursor(), 0);
        for slot in 0..size {
            assert_eq!(ring.sample(slot), 0);
            assert_eq!(f64::from_bits(ring.sample(slot)), 0.0);
        }
    }
}

#[test]
fn silence_is_positive_zero() {
    let ring = RingBuffer::new(1);
    assert_eq!(ring.sample(0), 0.0f64.to_bits());
    assert!(f64::from_bits(ring.sample(0)).is_sign_positive());
}

#[test]
fn new_store_without_slots_is_empty() {
    let ring = RingBuffer::new(0);
    assert_eq!(ring.len(), 0);
    assert_eq!(ring.cursor(), 0);
    assert_eq!(contents(&ring), Vec::<u64>::new());
}

#[test]
fn getters_follow_a_traversal() {
    let mut ring = RingBuffer::new(3);
    let mut it = ring.iter(1);
    for value in [7u64, 8] {
        let (slot, _) = it.next().unwrap();
        *slot = value;
    }
    it.finish();
    assert_eq!(ring.len(), 3);
    assert_eq!(ring.cursor(), 2);
    assert_eq!(ring.sample(0), 7);
    assert_eq!(ring.sample(1), 8);
    assert_eq!(ring.sample(2), 0);
    assert_eq!(contents(&ring), vec![7, 8, 0]);
}

#[test]
fn beginning_a_traversal_changes_nothing() {
    let mut ring = RingBuffer::new(4);
    let mut it = ring.iter(2);
    for value in [5u64, 6, 7] {
        let (slot, _) = it.next().unwrap();
        *slot = value;
    }
    it.finish();
    let before = contents(&ring);
    let cursor = ring.cursor();
    for delay in 0..=4 {
        ring.iter(delay).finish();
        assert_eq!(contents(&ring), before);
        assert_eq!(ring.cursor(), cursor);
    }
}
