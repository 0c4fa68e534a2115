use ecs_core::{EcsError, Entity, EntityComponentSet, MAX_N_ENTITIES};

#[derive(Debug, Clone, Copy, PartialEq, Eq)]
struct Position(i64, i64, i64);

#[test]
fn preallocated_set_inserts_and_gets() {
    let mut set: EntityComponentSet<Position> = EntityComponentSet::new();
    assert_eq!(set.len(), 0);
    let e = Entity::new(42, 0);
    set.insert(e, Position(1, 2, 3)).unwrap();
    assert_eq!(set.len(), 1);
    assert_eq!(set.get(e), Some(&Position(1, 2, 3)));
    assert_eq!(set.get(Entity::new(41, 0)), None);
}

#[test]
fn preallocated_set_overwrites_in_place() {
    let mut set: EntityComponentSet<Position> = EntityComponentSet::new();
    let e = Entity::new(0, 0);
    set.insert(e, Position(1, 1, 1)).unwrap();
    set.insert(e, Position(2, 2, 2)).unwrap();
    assert_eq!(set.len(), 1);
    assert_eq!(set.get(e), Some(&Position(2, 2, 2)));
}

#[test]
fn preallocated_set_swap_removes() {
    let mut set: EntityComponentSet<i32> = EntityComponentSet::new();
    let a = Entity::new(0, 0);
    let b = Entity::new(1, 0);
    let c = Entity::new(2, 0);
    set.insert(a, 10).unwrap();
    set.insert(b, 20).unwrap();
    set.insert(c, 30).unwrap();

    set.remove(a);
    assert_eq!(set.len(), 2);
    assert_eq!(set.get(a), None);
    // the swapped-in last entity is still reachable at its new position
    assert_eq!(set.get(c), Some(&30));
    assert_eq!(set.get(b), Some(&20));

    // removing an absent entity is a no-op
    set.remove(a);
    assert_eq!(set.len(), 2);
}

#[test]
fn preallocated_set_rejects_out_of_range_index() {
    let mut set: EntityComponentSet<i32> = EntityComponentSet::new();
    let too_big = Entity::new(MAX_N_ENTITIES as u32, 0);
    assert_eq!(set.insert(too_big, 1), Err(EcsError::IndexLimitExceeded));
    assert_eq!(set.len(), 0);
}
