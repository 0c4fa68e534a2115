use ecs_core::{EcsError, Entity, EntityManager};

#[test]
fn entity_packs_index_and_generation() {
    let e = Entity::new(5, 7);
    assert_eq!(e.index(), 5);
    assert_eq!(e.generation(), 7);

    let max = Entity::new(u32::MAX, u32::MAX);
    assert_eq!(max.index(), u32::MAX);
    assert_eq!(max.generation(), u32::MAX);

    assert_eq!(Entity::new(1, 2), Entity::new(1, 2));
    assert_ne!(Entity::new(1, 2), Entity::new(2, 1));
    assert_ne!(Entity::new(0, 1), Entity::new(0, 2));
}

#[test]
fn allocate_deallocate_reuses_slot_with_next_generation() {
    let mut em = EntityManager::new();
    let e0 = em.allocate().unwrap();
    assert_eq!(e0.index(), 0);
    assert_eq!(e0.generation(), 0);

    assert!(em.deallocate(e0));

    let e1 = em.allocate().unwrap();
    assert_eq!(e1.index(), 0);
    assert_eq!(e1.generation(), 1);

    assert!(!em.is_alive(e0));
    assert!(em.is_alive(e1));
}

#[test]
fn generations_strictly_increase_over_cycles() {
    let mut em = EntityManager::new();
    let mut last_gen = None;
    for _ in 0..5 {
        let e = em.allocate().unwrap();
        assert_eq!(e.index(), 0);
        if let Some(g) = last_gen {
            assert!(e.generation() > g);
        }
        last_gen = Some(e.generation());
        assert!(em.deallocate(e));
    }
    assert_eq!(last_gen, Some(4));
}

#[test]
fn deallocate_unknown_index_is_refused() {
    let mut em = EntityManager::new();
    assert!(!em.deallocate(Entity::new(3, 0)));
    let e = em.allocate().unwrap();
    assert!(em.is_alive(e));
}

#[test]
fn deallocate_is_keyed_by_index_not_generation() {
    let mut em = EntityManager::new();
    let e0 = em.allocate().unwrap();
    // a stale (wrong-generation) handle still frees the slot
    assert!(em.deallocate(Entity::new(0, 99)));
    assert!(!em.is_alive(e0));
}

#[test]
fn allocation_beyond_capacity_is_fatal() {
    let mut em = EntityManager::with_max_slots(2);
    let a = em.allocate().unwrap();
    let _b = em.allocate().unwrap();
    assert_eq!(em.allocate(), Err(EcsError::SlotCapacityExceeded));

    // freeing a slot makes allocation possible again at the same highwater
    assert!(em.deallocate(a));
    let c = em.allocate().unwrap();
    assert_eq!(c.index(), a.index());
    assert_eq!(em.allocate(), Err(EcsError::SlotCapacityExceeded));
}

#[test]
fn same_index_different_generations_never_both_alive() {
    let mut em = EntityManager::new();
    let e0 = em.allocate().unwrap();
    em.deallocate(e0);
    let e1 = em.allocate().unwrap();
    assert_eq!(e0.index(), e1.index());
    assert_ne!(e0.generation(), e1.generation());
    assert!(!(em.is_alive(e0) && em.is_alive(e1)));
    assert!(em.is_alive(e1));
}
