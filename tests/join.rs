use sparse_ecs::store::{ComponentContainer, EntityID};

fn store_of(items: &[(EntityID, i32)]) -> ComponentContainer<i32> {
    let mut s = ComponentContainer::new();
    for (id, v) in items {
        s.push(*id, *v).unwrap();
    }
    s
}

fn join_ids(a: &ComponentContainer<i32>, b: &ComponentContainer<i32>) -> Vec<(EntityID, i32, i32)> {
    let mut z = a.iter().zip_entity(b);
    let mut out = Vec::new();
    while let Some((id, x, y)) = z.next() {
        out.push((id, *x, *y));
    }
    out
}

#[test]
fn zip_entity_yields_common_ids_in_base_order() {
    let a = store_of(&[(4, 40), (1, 10), (7, 70), (2, 20)]);
    let b = store_of(&[(2, 200), (9, 900), (4, 400), (7, 700)]);
    assert_eq!(join_ids(&a, &b), vec![(4, 40, 400), (7, 70, 700), (2, 20, 200)]);
}

#[test]
fn zip_entity_rerun_is_identical() {
    let a = store_of(&[(3, 1), (5, 2), (8, 3)]);
    let b = store_of(&[(8, 0), (3, 0)]);
    let first = join_ids(&a, &b);
    let second = join_ids(&a, &b);
    assert_eq!(first, second);
    assert_eq!(first, vec![(3, 1, 0), (8, 3, 0)]);
}

#[test]
fn zip_entity_with_disjoint_or_empty_store_yields_nothing() {
    let a = store_of(&[(1, 1), (2, 2)]);
    let b = store_of(&[(3, 3)]);
    let e = store_of(&[]);
    assert!(join_ids(&a, &b).is_empty());
    assert!(join_ids(&a, &e).is_empty());
    assert!(join_ids(&e, &a).is_empty());
}

#[test]
fn zip_entity2_yields_ids_in_all_three() {
    let a = store_of(&[(1, 1), (2, 2), (3, 3), (4, 4)]);
    let b = store_of(&[(4, 40), (2, 20), (3, 30)]);
    let c = store_of(&[(3, 300), (1, 100), (4, 400)]);
    let mut z = a.iter().zip_entity2(&b, &c);
    let mut out = Vec::new();
    while let Some((id, x, y, w)) = z.next() {
        out.push((id, *x, *y, *w));
    }
    assert_eq!(out, vec![(3, 3, 30, 300), (4, 4, 40, 400)]);
}

#[test]
fn zip_entity_mut_changes_only_joined_base_values() {
    let mut a = store_of(&[(1, 1), (2, 2), (3, 3)]);
    let b = store_of(&[(3, 30), (1, 10)]);
    {
        let mut z = a.iter_mut().zip_entity(&b);
        while let Some((_, x, y)) = z.next() {
            *x += *y;
        }
    }
    assert_eq!(a.get(1), Some(&11));
    assert_eq!(a.get(2), Some(&2));
    assert_eq!(a.get(3), Some(&33));
    assert_eq!(b.get(3), Some(&30));
}

#[test]
fn zip_entity2_mut_needs_both_others() {
    let mut a = store_of(&[(1, 0), (2, 0), (3, 0)]);
    let b = store_of(&[(1, 5), (2, 6)]);
    let c = store_of(&[(2, 7), (3, 8)]);
    let mut ids = Vec::new();
    {
        let mut z = a.iter_mut().zip_entity2(&b, &c);
        while let Some((id, x, y, w)) = z.next() {
            *x = *y * *w;
            ids.push(id);
        }
    }
    assert_eq!(ids, vec![2]);
    assert_eq!(a.get(1), Some(&0));
    assert_eq!(a.get(2), Some(&42));
    assert_eq!(a.get(3), Some(&0));
}
