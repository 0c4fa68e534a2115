use ecs_core::{EcsError, Entity, SparseSet, MAX_N_ENTITIES};

#[derive(Debug, Clone, Copy, PartialEq, Eq)]
struct Position(i64, i64, i64);

#[test]
fn insert_get_len() {
    let mut set: SparseSet<Position> = SparseSet::new();
    assert_eq!(set.len(), 0);
    let a = Entity::new(0, 0);
    let b = Entity::new(7, 0);
    set.insert(a, Position(1, 2, 3)).unwrap();
    set.insert(b, Position(4, 5, 6)).unwrap();
    assert_eq!(set.len(), 2);
    assert_eq!(set.get(a), Some(&Position(1, 2, 3)));
    assert_eq!(set.get(b), Some(&Position(4, 5, 6)));
    assert_eq!(set.get(Entity::new(1, 0)), None);
}

#[test]
fn reinsert_replaces_in_place_without_growing() {
    let mut set: SparseSet<Position> = SparseSet::new();
    let e = Entity::new(3, 0);
    set.insert(e, Position(1, 1, 1)).unwrap();
    set.remove(e);
    set.insert(e, Position(2, 2, 2)).unwrap();
    assert_eq!(set.get(e), Some(&Position(2, 2, 2)));
    assert_eq!(set.len(), 1);

    // overwriting without removing must not grow the dense arrays either
    set.insert(e, Position(9, 9, 9)).unwrap();
    assert_eq!(set.get(e), Some(&Position(9, 9, 9)));
    assert_eq!(set.len(), 1);
}

#[test]
fn removing_non_last_moves_exactly_the_previous_last() {
    let mut set: SparseSet<i32> = SparseSet::new();
    let a = Entity::new(0, 0);
    let b = Entity::new(1, 0);
    let c = Entity::new(2, 0);
    set.insert(a, 10).unwrap();
    set.insert(b, 20).unwrap();
    set.insert(c, 30).unwrap();

    set.remove(a);
    assert_eq!(set.len(), 2);
    // the previous last entity now occupies dense position 0
    let (moved, value) = set.pair_at(0);
    assert_eq!(moved, c);
    assert_eq!(*value, 30);
    // the middle entity stayed where it was
    let (stayed, value1) = set.pair_at(1);
    assert_eq!(stayed, b);
    assert_eq!(*value1, 20);
    assert_eq!(set.get(a), None);
}

#[test]
fn removing_the_last_entity_shrinks_without_swap() {
    let mut set: SparseSet<i32> = SparseSet::new();
    let a = Entity::new(0, 0);
    let b = Entity::new(1, 0);
    set.insert(a, 10).unwrap();
    set.insert(b, 20).unwrap();
    set.remove(b);
    assert_eq!(set.len(), 1);
    let (first, v) = set.pair_at(0);
    assert_eq!(first, a);
    assert_eq!(*v, 10);
}

#[test]
fn removing_an_absent_entity_changes_nothing() {
    let mut set: SparseSet<i32> = SparseSet::new();
    let a = Entity::new(4, 0);
    set.insert(a, 1).unwrap();
    set.remove(Entity::new(9, 0));
    assert_eq!(set.len(), 1);
    assert_eq!(set.get(a), Some(&1));
}

#[test]
fn insert_beyond_index_limit_is_fatal_and_mutates_nothing() {
    let mut set: SparseSet<i32> = SparseSet::new();
    let too_big = Entity::new(MAX_N_ENTITIES as u32, 0);
    assert_eq!(set.insert(too_big, 1), Err(EcsError::IndexLimitExceeded));
    assert_eq!(set.len(), 0);
    assert_eq!(set.get(too_big), None);
}

#[test]
fn iter_yields_current_dense_order() {
    let mut set: SparseSet<i32> = SparseSet::new();
    let a = Entity::new(0, 0);
    let b = Entity::new(1, 0);
    let c = Entity::new(2, 0);
    set.insert(a, 10).unwrap();
    set.insert(b, 20).unwrap();
    set.insert(c, 30).unwrap();
    assert_eq!(set.iter(), vec![a, b, c]);
    set.remove(a);
    assert_eq!(set.iter(), vec![c, b]);
}

#[test]
fn get_mut_and_iter_mut_change_only_the_addressed_value() {
    let mut set: SparseSet<i32> = SparseSet::new();
    let a = Entity::new(0, 0);
    let b = Entity::new(1, 0);
    set.insert(a, 10).unwrap();
    set.insert(b, 20).unwrap();

    *set.get_mut(a).unwrap() = 11;
    assert_eq!(set.get(a), Some(&11));
    assert_eq!(set.get(b), Some(&20));

    let (who, v) = set.iter_mut(1);
    assert_eq!(who, b);
    *v = 21;
    assert_eq!(set.get(b), Some(&21));
    assert_eq!(set.get(a), Some(&11));
    assert!(set.get_mut(Entity::new(5, 0)).is_none());
}
