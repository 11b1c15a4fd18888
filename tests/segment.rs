use cachers::Segment;
use std::sync::Arc;

fn test_segment() -> Segment<i32, String> {
    Segment::new(3)
}

#[test]
fn write_populates() {
    let mut segment: Segment<i32, String> = test_segment();
    let our_key = 42;

    let value = segment.write(our_key, Some(our_key.to_string()));
    assert_eq!(*value.unwrap(), "42");
    assert_eq!(segment.len(), 1);
}

#[test]
fn write_evicts() {
    let mut segment: Segment<i32, String> = test_segment();
    let our_key = 42;
    {
        let value = segment.write(our_key, Some(our_key.to_string()));
        assert_eq!(*value.unwrap(), "42");
        assert_eq!(segment.len(), 1);
        segment.write(2, Some(2.to_string()));
        segment.write(3, Some(3.to_string()));
        assert_eq!(segment.len(), 3);
        segment.write(4, Some(4.to_string()));
        assert_eq!(segment.len(), 3);
    }
}

#[test]
fn write_removes() {
    let mut segment: Segment<i32, String> = test_segment();
    let our_key = 42;

    let value = segment.write(our_key, None);
    assert_eq!(value, None);
    assert_eq!(segment.len(), 0);
}

#[test]
fn segment_write_replaces_and_get_shares() {
    let mut segment: Segment<i32, String> = test_segment();
    segment.write(1, Some("one".to_string()));
    let first = segment.get(&1).unwrap();
    segment.write(1, Some("uno".to_string()));
    assert_eq!(*first, "one");
    assert_eq!(*segment.get(&1).unwrap(), "uno");
    assert_eq!(segment.len(), 1);
    let a = segment.get(&1).unwrap();
    let b = segment.get(&1).unwrap();
    assert!(Arc::ptr_eq(&a, &b));
}

#[test]
fn segment_write_evicts_the_first_key_when_all_touched() {
    let mut segment: Segment<i32, String> = test_segment();
    for k in 1..4 {
        segment.write(k, Some(k.to_string()));
    }
    segment.write(4, Some(4.to_string()));
    assert_eq!(segment.get(&1), None);
    assert_eq!(*segment.get(&2).unwrap(), "2");
    assert_eq!(*segment.get(&3).unwrap(), "3");
    assert_eq!(*segment.get(&4).unwrap(), "4");
}

#[test]
fn segment_removed_slot_is_reused_without_eviction() {
    let mut segment: Segment<i32, String> = test_segment();
    for k in 1..4 {
        segment.write(k, Some(k.to_string()));
    }
    segment.write(2, None);
    assert_eq!(segment.len(), 2);
    segment.write(5, Some(5.to_string()));
    assert_eq!(segment.len(), 3);
    assert_eq!(*segment.get(&1).unwrap(), "1");
    assert_eq!(*segment.get(&3).unwrap(), "3");
    assert_eq!(*segment.get(&5).unwrap(), "5");
    // A key that comes back after removal takes a slot of its own again.
    segment.write(2, Some("two".to_string()));
    assert_eq!(segment.len(), 3);
    assert_eq!(*segment.get(&2).unwrap(), "two");
}

#[test]
fn segment_get_or_populate_and_update() {
    let mut segment: Segment<i32, String> = test_segment();
    assert_eq!(segment.get_or_populate(7, |_| None), None);
    assert_eq!(segment.len(), 0);
    assert_eq!(*segment.get_or_populate(7, |k| Some(k.to_string())).unwrap(), "7");
    assert_eq!(*segment.get_or_populate(7, |_| Some("other".to_string())).unwrap(), "7");
    let updated = segment.update(7, |_, previous| Some(format!("{}!", previous.unwrap())));
    assert_eq!(*updated.unwrap(), "7!");
    assert_eq!(segment.update(7, |_, _| None), None);
    assert_eq!(segment.len(), 0);
    assert_eq!(segment.update(8, |_, previous| previous.map(|p| (*p).clone())), None);
    assert_eq!(segment.len(), 0);
}

#[test]
fn segment_of_capacity_zero_keeps_nothing() {
    let mut segment: Segment<i32, String> = Segment::new(0);
    assert_eq!(*segment.write(1, Some("1".to_string())).unwrap(), "1");
    assert_eq!(segment.len(), 0);
    assert_eq!(segment.get(&1), None);
}
