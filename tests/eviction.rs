use cachers::{ClockEvictionStrategy, EvictionStrategy};

#[test]
fn test_it_works() {
    let mut strategy = ClockEvictionStrategy::new(4);
    assert_eq!(strategy.add("1"), (0, None));
    assert_eq!(strategy.add("2"), (1, None));
    assert_eq!(strategy.add("3"), (2, None));
    assert_eq!(strategy.add("4"), (3, None));
    assert_eq!(strategy.add("5"), (0, Some("1")));
    assert_eq!(strategy.add("6"), (1, Some("2")));
    assert_eq!(strategy.add("7"), (2, Some("3")));
    assert_eq!(strategy.add("8"), (3, Some("4")));
    assert_eq!(strategy.add("9"), (0, Some("5")));

    strategy.touch(1);

    assert_eq!(strategy.add("10"), (2, Some("7")));

    strategy.touch(3);

    // The hand is at slot 3: it clears slots 3 and 0, wraps around and stops
    // at slot 1, the first untouched one.
    assert_eq!(strategy.add("11"), (1, Some("6")));
    // Slot 2 was touched when "10" came in; slot 3 was cleared by the last scan.
    assert_eq!(strategy.add("12"), (3, Some("8")));
}

#[test]
fn test_hammered_key_never_evicted() {
    let mut strategy = ClockEvictionStrategy::new(4);
    assert_eq!(strategy.add(1), (0, None));
    strategy.touch(1);
    assert_eq!(strategy.add(2), (1, None));
    strategy.touch(1);
    assert_eq!(strategy.add(3), (2, None));
    strategy.touch(1);
    assert_eq!(strategy.add(4), (3, None));
    for x in 5..10_000 {
        strategy.touch(1);
        assert_ne!(strategy.add(x), (1, Some(2)));
    }
}

#[test]
fn clock_evicts_in_insertion_order_when_all_touched() {
    let mut strategy = ClockEvictionStrategy::new(4);
    for k in 1..5 {
        strategy.add(k);
    }
    assert_eq!(strategy.add(5), (0, Some(1)));
    assert_eq!(strategy.add(6), (1, Some(2)));
}

#[test]
fn clock_gives_touched_slot_a_second_chance() {
    let mut strategy = ClockEvictionStrategy::new(3);
    for k in 1..4 {
        strategy.add(k);
    }
    // Every slot is touched: the scan clears them all and takes slot 0.
    assert_eq!(strategy.add(4), (0, Some(1)));
    // The hand is at slot 1; a touched slot 1 is skipped for slot 2.
    strategy.touch(1);
    assert_eq!(strategy.add(5), (2, Some(3)));
    // The hand wraps to slot 0, touched by the insertion of 4: slot 1 is next.
    assert_eq!(strategy.add(6), (1, Some(2)));
}

#[test]
fn clock_reuses_released_slot_before_evicting() {
    let mut strategy = ClockEvictionStrategy::new(3);
    for k in 1..4 {
        strategy.add(k);
    }
    strategy.release(1);
    assert_eq!(strategy.add(4), (1, None));
    assert_eq!(strategy.add(5), (0, Some(1)));
}

#[test]
fn clock_touch_out_of_range_is_ignored() {
    let mut strategy = ClockEvictionStrategy::new(2);
    strategy.touch(7);
    strategy.release(9);
    assert_eq!(strategy.capacity(), 2);
    assert_eq!(strategy.add('a'), (0, None));
}

#[test]
fn clock_through_the_trait() {
    let mut strategy: ClockEvictionStrategy<u8> = ClockEvictionStrategy::new(1);
    assert_eq!(EvictionStrategy::add(&mut strategy, 1), (0, None));
    EvictionStrategy::touch(&mut strategy, 0);
    assert_eq!(EvictionStrategy::add(&mut strategy, 2), (0, Some(1)));
}
