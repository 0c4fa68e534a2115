use ecs_core::{EcsError, Entity, World, MAX_N_ENTITIES};

#[derive(Debug, Clone, Copy, PartialEq, Eq)]
struct Position(i64, i64, i64);

#[derive(Debug, Clone, Copy, PartialEq, Eq)]
struct Velocity(i64, i64, i64);

// structurally identical to Position on purpose: type identity, not shape,
// keys the storages
#[derive(Debug, Clone, Copy, PartialEq, Eq)]
struct Health(i64, i64, i64);

#[test]
fn query_yields_exactly_the_holders() {
    let mut world = World::new();
    let a = world.spawn().unwrap();
    let b = world.spawn().unwrap();
    let c = world.spawn().unwrap();
    world.insert(a, Position(1, 0, 0)).unwrap();
    world.insert(c, Position(3, 0, 0)).unwrap();

    let set = world.query::<Position>().unwrap();
    assert_eq!(set.len(), 2);
    let holders = set.iter();
    assert!(holders.contains(&a));
    assert!(holders.contains(&c));
    assert!(!holders.contains(&b));
}

#[test]
fn reinserting_a_component_replaces_it() {
    let mut world = World::new();
    let e = world.spawn().unwrap();
    world.insert(e, Position(1, 1, 1)).unwrap();
    world.query_mut::<Position>().unwrap().remove(e);
    world.insert(e, Position(2, 2, 2)).unwrap();

    let set = world.query::<Position>().unwrap();
    assert_eq!(set.get(e), Some(&Position(2, 2, 2)));
    assert_eq!(set.len(), 1);
}

#[test]
fn removing_the_first_holder_moves_the_last_into_its_place() {
    let mut world = World::new();
    let a = world.spawn().unwrap();
    let b = world.spawn().unwrap();
    let c = world.spawn().unwrap();
    world.insert(a, Velocity(1, 0, 0)).unwrap();
    world.insert(b, Velocity(2, 0, 0)).unwrap();
    world.insert(c, Velocity(3, 0, 0)).unwrap();

    world.query_mut::<Velocity>().unwrap().remove(a);
    let set = world.query::<Velocity>().unwrap();
    assert_eq!(set.len(), 2);
    let (moved, v) = set.pair_at(0);
    assert_eq!(moved, c);
    assert_eq!(*v, Velocity(3, 0, 0));
}

#[test]
fn despawn_cascades_across_all_component_types() {
    let mut world = World::new();
    let e = world.spawn().unwrap();
    let other = world.spawn().unwrap();
    world.insert(e, Position(1, 2, 3)).unwrap();
    world.insert(e, Velocity(4, 5, 6)).unwrap();
    world.insert(other, Position(7, 8, 9)).unwrap();

    world.despawn(e);

    assert!(!world.is_alive(e));
    assert_eq!(world.query::<Position>().unwrap().get(e), None);
    assert_eq!(world.query::<Velocity>().unwrap().get(e), None);
    // the other entity's data survives
    assert_eq!(world.query::<Position>().unwrap().get(other), Some(&Position(7, 8, 9)));
    assert_eq!(world.query::<Velocity>().unwrap().len(), 0);
}

#[test]
fn one_type_never_alters_another() {
    let mut world = World::new();
    let a = world.spawn().unwrap();
    let b = world.spawn().unwrap();
    world.insert(a, Health(100, 0, 0)).unwrap();
    world.insert(b, Health(50, 0, 0)).unwrap();

    // churn on Position must leave Health untouched
    world.insert(a, Position(1, 1, 1)).unwrap();
    world.insert(b, Position(2, 2, 2)).unwrap();
    world.query_mut::<Position>().unwrap().remove(a);
    world.insert(a, Position(3, 3, 3)).unwrap();

    let health = world.query::<Health>().unwrap();
    assert_eq!(health.len(), 2);
    assert_eq!(health.get(a), Some(&Health(100, 0, 0)));
    assert_eq!(health.get(b), Some(&Health(50, 0, 0)));
}

#[test]
fn despawn_then_spawn_recycles_with_fresh_generation() {
    let mut world = World::new();
    let e = world.spawn().unwrap();
    world.despawn(e);
    let n = world.spawn().unwrap();
    assert_eq!(n.index(), e.index());
    assert_ne!(n.generation(), e.generation());
    assert!(!world.is_alive(e));
    assert!(world.is_alive(n));
}

#[test]
fn query_of_a_type_never_inserted_is_empty() {
    let world = World::new();
    assert!(world.query::<Position>().is_none());
    let mut world = World::new();
    let e = world.spawn().unwrap();
    world.insert(e, Velocity(0, 0, 0)).unwrap();
    assert!(world.query::<Position>().is_none());
    assert!(world.query_mut::<Position>().is_none());
}

#[test]
fn insert_beyond_index_limit_is_fatal() {
    let mut world = World::new();
    let bogus = Entity::new(MAX_N_ENTITIES as u32, 0);
    assert_eq!(world.insert(bogus, Position(0, 0, 0)), Err(EcsError::IndexLimitExceeded));
    assert!(world.query::<Position>().is_none());
}

#[test]
fn insert_after_despawn_is_not_rejected() {
    // the generational check is an opt-in safety query: insert is keyed by
    // index and deliberately does not validate aliveness
    let mut world = World::new();
    let e = world.spawn().unwrap();
    world.despawn(e);
    assert!(!world.is_alive(e));
    world.insert(e, Position(1, 1, 1)).unwrap();
    assert_eq!(world.query::<Position>().unwrap().len(), 1);
}

#[test]
fn stale_generation_despawn_still_scrubs_the_slot() {
    let mut world = World::new();
    let e = world.spawn().unwrap();
    world.insert(e, Position(1, 1, 1)).unwrap();
    // a handle with the right index but a wrong generation
    let stale = Entity::new(e.index(), e.generation().wrapping_add(7));
    world.despawn(stale);
    assert!(!world.is_alive(e));
    assert_eq!(world.query::<Position>().unwrap().get(e), None);
}
