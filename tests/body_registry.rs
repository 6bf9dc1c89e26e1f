use ferris_physics::object_data::ObjectData;
use ferris_physics::registry::{BodyRegistry, EngineId};

fn id(index: usize) -> EngineId {
    EngineId { index, generation: 0 }
}

#[test]
fn handles_are_distinct() {
    let mut r = BodyRegistry::new();
    let a = r.register(ObjectData::Ground, id(0), id(0)).unwrap();
    let b = r.register(ObjectData::Player, id(1), id(1)).unwrap();
    let c = r.register(ObjectData::Enemy, id(2), id(2)).unwrap();
    assert_ne!(a, b);
    assert_ne!(a, c);
    assert_ne!(b, c);
}

#[test]
fn freed_slot_gets_a_new_generation() {
    let mut r = BodyRegistry::new();
    let a = r.register(ObjectData::Bullet, id(0), id(0)).unwrap();
    assert!(r.unregister(a).is_some());
    let b = r.register(ObjectData::Barrel, id(1), id(1)).unwrap();
    assert_eq!(b.index, a.index);
    assert_ne!(b, a);
    assert!(!r.contains(a));
    assert!(r.entry(a).is_none());
    assert_eq!(r.entry(b).unwrap().tag, ObjectData::Barrel);
}

#[test]
fn destroyed_handle_does_not_resolve() {
    let mut r = BodyRegistry::new();
    let a = r.register(ObjectData::Enemy, id(3), id(4)).unwrap();
    let e = r.unregister(a).unwrap();
    assert_eq!(e.tag, ObjectData::Enemy);
    assert_eq!(e.body, id(3));
    assert_eq!(e.collider, id(4));
    assert!(r.entry(a).is_none());
    assert!(r.unregister(a).is_none());
}

#[test]
fn body_and_collider_ids_kept_apart() {
    let mut r = BodyRegistry::new();
    let a = r.register(ObjectData::Player, id(5), id(9)).unwrap();
    let e = r.entry(a).unwrap();
    assert_eq!(e.body, id(5));
    assert_eq!(e.collider, id(9));
    assert_eq!(r.owner_of(id(9)), Some(a));
    assert_eq!(r.owner_of(id(5)), None);
}

#[test]
fn reused_engine_ids_are_refused() {
    let mut r = BodyRegistry::new();
    r.register(ObjectData::Ground, id(0), id(1)).unwrap();
    assert!(r.register(ObjectData::Enemy, id(0), id(2)).is_none());
    assert!(r.register(ObjectData::Enemy, id(3), id(1)).is_none());
    assert!(r.register(ObjectData::Enemy, id(3), id(2)).is_some());
}

#[test]
fn collisions_are_mirrored() {
    let mut r = BodyRegistry::new();
    let a = r.register(ObjectData::Bullet, id(0), id(10)).unwrap();
    let b = r.register(ObjectData::Enemy, id(1), id(11)).unwrap();
    let from_a = r.collisions(a, &vec![id(11)]).unwrap();
    let from_b = r.collisions(b, &vec![id(10)]).unwrap();
    assert_eq!(from_a, vec![((ObjectData::Bullet, ObjectData::Enemy), b)]);
    assert_eq!(from_b, vec![((ObjectData::Enemy, ObjectData::Bullet), a)]);
}

#[test]
fn tags_stay_the_same_between_queries() {
    let mut r = BodyRegistry::new();
    let a = r.register(ObjectData::Player, id(0), id(0)).unwrap();
    let b = r.register(ObjectData::Ground, id(1), id(1)).unwrap();
    let first = r.collisions(a, &vec![id(1)]).unwrap();
    let c = r.register(ObjectData::Barrel, id(2), id(2)).unwrap();
    r.unregister(c);
    let second = r.collisions(a, &vec![id(1)]).unwrap();
    assert_eq!(first, second);
    assert_eq!(r.contact(a, id(1)), Some(((ObjectData::Player, ObjectData::Ground), b)));
}

#[test]
fn collisions_with_untagged_collider_fail() {
    let mut r = BodyRegistry::new();
    let a = r.register(ObjectData::Player, id(0), id(0)).unwrap();
    assert!(r.collisions(a, &vec![id(7)]).is_none());
    assert!(r.contact(a, id(7)).is_none());
}

#[test]
fn collisions_of_dead_handle_fail() {
    let mut r = BodyRegistry::new();
    let a = r.register(ObjectData::Player, id(0), id(0)).unwrap();
    r.register(ObjectData::Ground, id(1), id(1)).unwrap();
    r.unregister(a);
    assert!(r.collisions(a, &vec![]).is_none());
}

#[test]
fn no_contacts_gives_empty_result() {
    let mut r = BodyRegistry::new();
    let a = r.register(ObjectData::Player, id(0), id(0)).unwrap();
    assert_eq!(r.collisions(a, &vec![]), Some(vec![]));
}
