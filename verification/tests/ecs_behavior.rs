use ecs::entities::Entities;
use ecs::error::EcsError;
use ecs::query::{Query, QueryEntity};
use ecs::resources::Resources;
use ecs::system::System;
use ecs::world::World;

const POSITION: u64 = 1;
const VELOCITY: u64 = 2;

#[derive(Clone, Copy, Debug, PartialEq)]
enum Component {
    Position { x: i64, y: i64 },
    Velocity { dx: i64, dy: i64 },
}

fn two_entity_setup() -> Entities<Component> {
    let mut ents: Entities<Component> = Entities::new();
    ents.register_component(POSITION).unwrap();
    ents.register_component(VELOCITY).unwrap();
    ents.create_entity();
    ents.with_component(POSITION, Component::Position { x: 0, y: 0 });
    ents.with_component(VELOCITY, Component::Velocity { dx: 1, dy: 1 });
    ents.create_entity();
    ents.with_component(POSITION, Component::Position { x: 5, y: 5 });
    ents
}

#[test]
fn it_works() {
    assert_eq!(2 + 2, 4);
}

#[test]
fn query_returns_matching_entities_in_creation_order() {
    let ents = two_entity_setup();

    let mut q = Query::new(&ents);
    q.with_component(POSITION).unwrap();
    q.with_component(VELOCITY).unwrap();
    let cols = q.run();
    assert_eq!(cols.len(), 2);
    assert_eq!(cols[0], vec![Component::Position { x: 0, y: 0 }]);
    assert_eq!(cols[1], vec![Component::Velocity { dx: 1, dy: 1 }]);

    let mut q2 = Query::new(&ents);
    q2.with_component(POSITION).unwrap();
    let cols2 = q2.run();
    assert_eq!(cols2.len(), 1);
    assert_eq!(
        cols2[0],
        vec![Component::Position { x: 0, y: 0 }, Component::Position { x: 5, y: 5 }]
    );
}

#[test]
fn adding_component_later_widens_the_query() {
    let mut ents = two_entity_setup();
    ents.add_component_by_entity_id(VELOCITY, 1, Component::Velocity { dx: 2, dy: 2 })
        .unwrap();

    let mut q = Query::new(&ents);
    q.with_component(POSITION).unwrap();
    q.with_component(VELOCITY).unwrap();
    let cols = q.run();
    assert_eq!(cols[0].len(), 2);
    assert_eq!(cols[1].len(), 2);
    assert_eq!(cols[1][1], Component::Velocity { dx: 2, dy: 2 });
}

#[test]
fn removing_component_narrows_the_query() {
    let mut ents = two_entity_setup();
    ents.add_component_by_entity_id(VELOCITY, 1, Component::Velocity { dx: 2, dy: 2 })
        .unwrap();
    ents.remove_component_by_entity_id(VELOCITY, 0).unwrap();

    let mut q = Query::new(&ents);
    q.with_component(POSITION).unwrap();
    q.with_component(VELOCITY).unwrap();
    let entities = q.run_entity();
    assert_eq!(entities.len(), 1);
    assert_eq!(entities[0].id, 1);
}

#[test]
fn columnar_results_stay_aligned() {
    let mut ents = two_entity_setup();
    ents.create_entity();
    ents.with_component(VELOCITY, Component::Velocity { dx: 9, dy: 9 });
    ents.add_component_by_entity_id(VELOCITY, 1, Component::Velocity { dx: 2, dy: 2 })
        .unwrap();

    let mut q = Query::new(&ents);
    q.with_component(POSITION).unwrap();
    q.with_component(VELOCITY).unwrap();
    let cols = q.run();
    assert_eq!(cols[0].len(), cols[1].len());
    assert_eq!(cols[0].len(), 2);
    assert_eq!(cols[0][1], Component::Position { x: 5, y: 5 });
    assert_eq!(cols[1][1], Component::Velocity { dx: 2, dy: 2 });
}

#[test]
fn signature_tracks_live_slots() {
    let mut ents = two_entity_setup();
    let pos_bit = ents.get_component_bitmask(POSITION).unwrap();
    let vel_bit = ents.get_component_bitmask(VELOCITY).unwrap();
    assert_eq!(pos_bit, 1);
    assert_eq!(vel_bit, 2);

    assert!(ents.has_component(0, pos_bit | vel_bit));
    assert!(ents.has_component(1, pos_bit));
    assert!(!ents.has_component(1, vel_bit));

    let positions = ents.get_components(POSITION).unwrap();
    let velocities = ents.get_components(VELOCITY).unwrap();
    assert_eq!(positions.len(), 2);
    assert!(positions[0].is_some() && positions[1].is_some());
    assert!(velocities[0].is_some() && velocities[1].is_none());

    ents.remove_component_by_entity_id(VELOCITY, 0).unwrap();
    assert!(!ents.has_component(0, vel_bit));
    let velocities = ents.get_components(VELOCITY).unwrap();
    assert!(velocities[0].is_none());
}

#[test]
fn deleting_is_idempotent_and_local() {
    let mut ents = two_entity_setup();
    ents.remove_entity_by_id(0).unwrap();
    ents.remove_entity_by_id(0).unwrap();
    ents.remove_component_by_entity_id(VELOCITY, 1).unwrap();

    let pos_bit = ents.get_component_bitmask(POSITION).unwrap();
    assert!(!ents.has_component(0, pos_bit));
    assert!(ents.has_component(1, pos_bit));
    let positions = ents.get_components(POSITION).unwrap();
    assert_eq!(positions[1], Some(Component::Position { x: 5, y: 5 }));

    let mut q = Query::new(&ents);
    q.with_component(POSITION).unwrap();
    let handles = q.run_entity();
    assert_eq!(handles.len(), 1);
    assert_eq!(handles[0].id, 1);
}

#[test]
fn unregistered_type_is_reported() {
    let mut ents = two_entity_setup();
    assert_eq!(ents.get_component_bitmask(99), Err(EcsError::UnregisteredComponent));
    assert_eq!(
        ents.add_component_by_entity_id(99, 0, Component::Position { x: 1, y: 1 }),
        Err(EcsError::UnregisteredComponent)
    );
    assert_eq!(
        ents.remove_component_by_entity_id(99, 0),
        Err(EcsError::UnregisteredComponent)
    );
    assert!(ents.get_components(99).is_err());

    let mut q = Query::new(&ents);
    assert_eq!(q.with_component(99), Err(EcsError::UnregisteredComponent));

    // Attaching an unregistered type to the latest entity is silently
    // ignored.
    let pos_bit = ents.get_component_bitmask(POSITION).unwrap();
    ents.with_component(99, Component::Position { x: 7, y: 7 });
    assert!(ents.has_component(1, pos_bit));
    let positions = ents.get_components(POSITION).unwrap();
    assert_eq!(positions[1], Some(Component::Position { x: 5, y: 5 }));
}

#[test]
fn duplicate_registration_is_rejected() {
    let mut ents: Entities<Component> = Entities::new();
    ents.register_component(POSITION).unwrap();
    assert_eq!(ents.register_component(POSITION), Err(EcsError::DuplicateRegistration));
}

#[test]
fn bit_capacity_overflow_is_rejected() {
    let mut ents: Entities<Component> = Entities::new();
    let mut t: u64 = 0;
    while t < 32 {
        ents.register_component(100 + t).unwrap();
        t += 1;
    }
    assert_eq!(ents.register_component(900), Err(EcsError::CapacityExceeded));
}

#[test]
fn missing_component_is_reported() {
    let mut ents = two_entity_setup();
    let handle = QueryEntity::new(1);
    assert_eq!(
        handle.get_component(&mut ents, VELOCITY),
        Err(EcsError::MissingComponent)
    );
}

#[test]
fn exclusive_borrow_excludes_shared_access() {
    let mut ents = two_entity_setup();
    let handle = QueryEntity::new(0);

    let held = handle.get_component_mut(&mut ents, POSITION).unwrap();
    assert_eq!(held, Component::Position { x: 0, y: 0 });
    assert_eq!(
        handle.get_component(&mut ents, POSITION),
        Err(EcsError::BorrowConflict)
    );
    assert_eq!(
        handle.get_component_mut(&mut ents, POSITION),
        Err(EcsError::BorrowConflict)
    );

    handle
        .release_component_mut(&mut ents, POSITION, Component::Position { x: 3, y: 4 })
        .unwrap();
    assert_eq!(
        handle.get_component(&mut ents, POSITION),
        Ok(Component::Position { x: 3, y: 4 })
    );
}

#[test]
fn shared_borrows_coexist_and_exclude_exclusive() {
    let mut ents = two_entity_setup();
    let handle = QueryEntity::new(0);

    assert!(handle.get_component(&mut ents, POSITION).is_ok());
    assert!(handle.get_component(&mut ents, POSITION).is_ok());
    assert_eq!(
        handle.get_component_mut(&mut ents, POSITION),
        Err(EcsError::BorrowConflict)
    );
    handle.release_component(&mut ents, POSITION).unwrap();
    assert_eq!(
        handle.get_component_mut(&mut ents, POSITION),
        Err(EcsError::BorrowConflict)
    );
    handle.release_component(&mut ents, POSITION).unwrap();
    assert!(handle.get_component_mut(&mut ents, POSITION).is_ok());
}

#[test]
fn releasing_without_borrow_is_a_conflict() {
    let mut ents = two_entity_setup();
    let handle = QueryEntity::new(0);
    assert_eq!(
        handle.release_component(&mut ents, POSITION),
        Err(EcsError::BorrowConflict)
    );
    assert_eq!(
        handle.release_component_mut(&mut ents, POSITION, Component::Position { x: 9, y: 9 }),
        Err(EcsError::BorrowConflict)
    );
}

#[test]
fn removal_of_borrowed_component_is_rejected() {
    let mut ents = two_entity_setup();
    ents.borrow_component_mut(POSITION, 0).unwrap();
    assert_eq!(ents.remove_component_by_entity_id(POSITION, 0), Err(EcsError::BorrowConflict));
    assert_eq!(ents.remove_entity_by_id(0), Err(EcsError::BorrowConflict));
    ents.release_component_mut(POSITION, 0, Component::Position { x: 0, y: 0 })
        .unwrap();
    assert_eq!(ents.remove_entity_by_id(0), Ok(()));
}

#[test]
fn late_registration_backfills_existing_entities() {
    let mut ents: Entities<Component> = Entities::new();
    ents.register_component(POSITION).unwrap();
    ents.create_entity();
    ents.with_component(POSITION, Component::Position { x: 1, y: 2 });
    ents.register_component(VELOCITY).unwrap();
    let velocities = ents.get_components(VELOCITY).unwrap();
    assert_eq!(velocities.len(), 1);
    assert!(velocities[0].is_none());
    ents.add_component_by_entity_id(VELOCITY, 0, Component::Velocity { dx: 1, dy: 0 })
        .unwrap();
    let velocities = ents.get_components(VELOCITY).unwrap();
    assert_eq!(velocities[0], Some(Component::Velocity { dx: 1, dy: 0 }));
}

const SCORE: u64 = 10;
const NAME: u64 = 11;

#[test]
fn latest_resource_wins() {
    let mut res: Resources<i64> = Resources::new();
    assert_eq!(res.get_ref(SCORE), Err(EcsError::MissingResource));
    res.add(SCORE, 41);
    res.add(SCORE, 42);
    assert_eq!(res.get_ref(SCORE), Ok(&42));
    assert!(res.contains(SCORE));

    res.add(NAME, -7);
    assert_eq!(res.get_ref(NAME), Ok(&-7));
    assert_eq!(res.get_ref(SCORE), Ok(&42));

    let v = res.get_mut(SCORE);
    *v += 1;
    assert_eq!(res.get_ref(SCORE), Ok(&43));

    res.remove(SCORE);
    assert_eq!(res.get_ref(SCORE), Err(EcsError::MissingResource));
    assert_eq!(res.get_ref(NAME), Ok(&-7));
}

struct CountTicks;

impl System<Component, i64> for CountTicks {
    fn run(&self, _entities: &mut Entities<Component>, resources: &mut Resources<i64>) {
        if resources.contains(SCORE) {
            let ticks = res_read(resources, SCORE) + 1;
            resources.add(SCORE, ticks);
        } else {
            resources.add(SCORE, 1);
        }
    }
}

fn res_read(resources: &Resources<i64>, key: u64) -> i64 {
    *resources.get_ref(key).unwrap()
}

#[test]
fn world_runs_systems_in_order() {
    let mut world: World<Component, i64, CountTicks> = World::new();
    world.register_component(POSITION).unwrap();
    let id = world.create_entity();
    assert_eq!(id, 0);
    world.entities.with_component(POSITION, Component::Position { x: 0, y: 0 });

    world.add_system(CountTicks);
    world.add_system(CountTicks);
    world.run();
    assert_eq!(world.get_resource(SCORE), Ok(&2));
    world.run();
    assert_eq!(world.get_resource(SCORE), Ok(&4));
}

#[test]
fn running_a_world_without_systems_changes_nothing() {
    let mut world: World<Component, i64, CountTicks> = World::new();
    world.register_component(POSITION).unwrap();
    world.create_entity();
    world.entities.with_component(POSITION, Component::Position { x: 2, y: 3 });
    world.create_resource(NAME, 8);

    world.run();

    let positions = world.entities.get_components(POSITION).unwrap();
    assert_eq!(positions, vec![Some(Component::Position { x: 2, y: 3 })]);
    assert_eq!(world.get_resource(NAME), Ok(&8));
    assert_eq!(world.get_resource(SCORE), Err(EcsError::MissingResource));
}

#[test]
fn world_resource_round_trip() {
    let mut world: World<Component, i64, CountTicks> = World::new();
    world.create_resource(NAME, 5);
    assert_eq!(world.get_resource(NAME), Ok(&5));
    let v = world.get_resource_mut(NAME);
    *v = 6;
    assert_eq!(world.get_resource(NAME), Ok(&6));
    world.remove_resource(NAME);
    assert_eq!(world.get_resource(NAME), Err(EcsError::MissingResource));
}

#[test]
fn error_descriptions_name_the_failure() {
    assert!(EcsError::BorrowConflict.describe().contains("borrow"));
    assert!(EcsError::CapacityExceeded.describe().contains("bit"));
}
