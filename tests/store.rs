use sparse_ecs::store::{ComponentContainer, EntityAllocator, StoreError};

#[test]
fn get_on_empty_store_is_absent() {
    let mut s: ComponentContainer<i32> = ComponentContainer::new();
    assert!(s.get(0).is_none());
    assert!(s.get_mut(0).is_none());
    assert_eq!(s.len(), 0);
}

#[test]
fn never_pushed_id_is_absent() {
    let mut s: ComponentContainer<i32> = ComponentContainer::new();
    assert_eq!(s.push(1, 10), Ok(()));
    assert_eq!(s.push(3, 30), Ok(()));
    assert!(s.get(2).is_none());
    assert!(s.get_mut(2).is_none());
    assert!(s.get(u32::MAX).is_none());
}

#[test]
fn push_then_get_round_trip() {
    let mut s: ComponentContainer<String> = ComponentContainer::new();
    assert_eq!(s.push(5, "five".to_string()), Ok(()));
    assert_eq!(s.get(5), Some(&"five".to_string()));
    assert_eq!(s.len(), 1);
}

#[test]
fn second_push_of_same_id_is_rejected() {
    let mut s: ComponentContainer<i32> = ComponentContainer::new();
    assert_eq!(s.push(4, 1), Ok(()));
    assert_eq!(s.push(4, 2), Err(StoreError::DuplicateEntity(4)));
    assert_eq!(s.get(4), Some(&1));
    assert_eq!(s.len(), 1);
}

#[test]
fn get_mut_changes_only_that_entity() {
    let mut s: ComponentContainer<i32> = ComponentContainer::new();
    s.push(1, 10).unwrap();
    s.push(2, 20).unwrap();
    *s.get_mut(2).unwrap() += 5;
    assert_eq!(s.get(1), Some(&10));
    assert_eq!(s.get(2), Some(&25));
}

#[test]
fn iter_follows_insertion_order() {
    let mut s: ComponentContainer<char> = ComponentContainer::new();
    s.push(9, 'a').unwrap();
    s.push(2, 'b').unwrap();
    s.push(5, 'c').unwrap();
    let mut it = s.iter();
    let mut seen = Vec::new();
    while let Some((id, v)) = it.next() {
        seen.push((id, *v));
    }
    assert_eq!(seen, vec![(9, 'a'), (2, 'b'), (5, 'c')]);
    assert!(it.next().is_none());
}

#[test]
fn iter_mut_changes_every_value() {
    let mut s: ComponentContainer<i32> = ComponentContainer::new();
    s.push(3, 1).unwrap();
    s.push(1, 2).unwrap();
    {
        let mut it = s.iter_mut();
        while let Some((id, v)) = it.next() {
            *v += id as i32 * 100;
        }
    }
    assert_eq!(s.get(3), Some(&301));
    assert_eq!(s.get(1), Some(&102));
}

#[test]
fn entry_at_reads_by_position() {
    let mut s: ComponentContainer<i32> = ComponentContainer::default();
    s.push(7, 70).unwrap();
    s.push(8, 80).unwrap();
    let (id, v) = s.entry_at(1);
    assert_eq!((id, *v), (8, 80));
    let (id, v) = s.entry_at_mut(0);
    *v = 71;
    assert_eq!(id, 7);
    assert_eq!(s.get(7), Some(&71));
}

#[test]
fn allocator_hands_out_increasing_ids() {
    let mut a = EntityAllocator::new();
    assert_eq!(a.allocate(), Some(0));
    assert_eq!(a.allocate(), Some(1));
    assert_eq!(a.allocate(), Some(2));
}
