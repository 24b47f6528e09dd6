use ecs::entity::UnregisteredComponent;
use ecs::world::World;

#[test]
fn spawn_entity() {
    let mut world = World::new(10).register::<u32>().register::<String>();

    let entity_id = world
        .spawn()
        .with::<u32>(25).unwrap()
        .with::<String>("test".to_string()).unwrap()
        .into_id();

    let age = world.get::<u32>(entity_id);
    let name = world.get::<String>(entity_id);

    assert_eq!(age, Some(&25));
    assert_eq!(name, Some(&"test".to_string()));
}

#[test]
fn despawn_entity() {
    let mut world = World::new(10).register::<u32>().register::<i32>();
    let entity_id = world.spawn().with::<u32>(25).unwrap().with::<i32>(-10).unwrap().into_id();

    world.despawn(entity_id);

    let v1 = world.get::<u32>(entity_id);
    let v2 = world.get::<i32>(entity_id);

    assert!(v1.is_none());
    assert!(v2.is_none());
}

#[test]
fn get_entity_component_doesnt_exist() {
    let mut world = World::new(10).register::<u32>().register::<i32>();
    let entity_id = world.spawn().with::<u32>(25).unwrap().into_id();

    let value = world.get::<i32>(entity_id);

    assert!(value.is_none());
}

#[test]
fn get_entity_component_when_not_registered() {
    let world = World::new(10);
    let value = world.get::<u32>(0);

    assert!(value.is_none());
}

#[test]
fn get_entity_component() {
    let mut world = World::new(10).register::<u32>();
    let entity_id = world.spawn().with::<u32>(25).unwrap().into_id();

    let value = world.get::<u32>(entity_id);

    assert_eq!(value, Some(&25));
}

#[test]
fn get_mut_entity_component_doesnt_exist() {
    let mut world = World::new(10).register::<u32>().register::<i32>();
    let entity_id = world.spawn().with::<u32>(25).unwrap().into_id();

    let value = world.get_mut::<i32>(entity_id);

    assert!(value.is_none());
}

#[test]
fn get_mut_entity_component_when_not_registered() {
    let mut world = World::new(10);
    let value = world.get_mut::<u32>(0);

    assert!(value.is_none());
}

#[test]
fn get_mut_entity_component() {
    let mut world = World::new(10).register::<u32>();
    let entity_id = world.spawn().with::<u32>(25).unwrap().into_id();

    let value = world.get_mut::<u32>(entity_id);

    assert_eq!(value, Some(&mut 25));

    *value.unwrap() = 36;

    let value = world.get::<u32>(entity_id);

    assert_eq!(value, Some(&36));
}

#[test]
fn register_entity_adds_entry_to_components() {
    let world = World::new(10).register::<u32>();

    assert_eq!(world.type_count(), 1);
    assert_eq!(world.is_registered::<u32>(), true);
}

#[test]
fn register_twice_is_idempotent() {
    let mut world = World::new(4).register::<u32>();
    let id = world.spawn().with::<u32>(7).unwrap().into_id();
    let mut world = world.register::<u32>();

    assert_eq!(world.type_count(), 1);
    assert_eq!(world.get::<u32>(id), Some(&7));
    assert_eq!(world.get_mut::<u32>(id), Some(&mut 7));
}

#[test]
fn unregistered_type_is_not_registered() {
    let world = World::new(4).register::<u32>();

    assert_eq!(world.is_registered::<i64>(), false);
    assert_eq!(world.get::<i64>(0), None);
    assert_eq!(world.get::<i64>(100), None);
}

#[test]
fn spawn_issues_increasing_ids() {
    let mut world = World::new(10);

    let a = world.spawn().into_id();
    let b = world.spawn().into_id();
    let c = world.spawn().into_id();

    assert_eq!((a, b, c), (0, 1, 2));
}

#[test]
fn despawn_clears_types_the_entity_never_had() {
    let mut world = World::new(10).register::<u32>().register::<i32>();
    let first = world.spawn().with::<u32>(1).unwrap().into_id();
    let second = world.spawn().with::<u32>(2).unwrap().with::<i32>(-2).unwrap().into_id();

    world.despawn(first);

    assert_eq!(world.get::<u32>(first), None);
    assert_eq!(world.get::<i32>(first), None);
    assert_eq!(world.get::<u32>(second), Some(&2));
    assert_eq!(world.get::<i32>(second), Some(&-2));
}

#[test]
fn despawned_id_is_not_reissued() {
    let mut world = World::new(10).register::<u32>();
    let first = world.spawn().with::<u32>(1).unwrap().into_id();

    world.despawn(first);
    let next = world.spawn().into_id();

    assert_eq!(next, 1);
}

#[test]
fn with_overwrites_previous_value() {
    let mut world = World::new(3).register::<u32>();
    let id = world.spawn().with::<u32>(1).unwrap().with::<u32>(2).unwrap().into_id();

    assert_eq!(world.get::<u32>(id), Some(&2));
    assert_eq!(world.get_storage::<u32>().unwrap().size(), 1);
}

#[test]
fn create_on_registered_type_stores_value() {
    let mut world = World::new(3).register::<u32>();

    assert_eq!(world.create::<u32>(2, 40), true);

    assert_eq!(world.get::<u32>(2), Some(&40));
}

#[test]
fn create_on_unregistered_type_does_nothing() {
    let mut world = World::new(3).register::<u32>();

    assert_eq!(world.create::<i32>(2, 40), false);

    assert_eq!(world.get::<i32>(2), None);
    assert_eq!(world.type_count(), 1);
}

#[test]
fn get_beyond_capacity_is_absent() {
    let world = World::new(2).register::<u32>();

    assert_eq!(world.get::<u32>(2), None);
}

#[test]
fn storage_mut_reaches_the_registered_set() {
    let mut world = World::new(3).register::<u32>();

    world.get_storage_mut::<u32>().unwrap().add(1, 11);

    assert_eq!(world.get::<u32>(1), Some(&11));
    assert!(world.get_storage_mut::<i8>().is_none());
}

#[test]
#[should_panic]
fn spawn_entity_with_unregistered_component() {
    let mut world = World::new(10);
    world.spawn().with::<u32>(25).unwrap().into_id();
}

#[test]
fn with_unregistered_type_reports_it() {
    let mut world = World::new(10).register::<u32>();

    let result = world.spawn().with::<i32>(5).map(|b| b.into_id());

    assert_eq!(result, Err(UnregisteredComponent));
    assert_eq!(world.get::<u32>(0), None);
    assert_eq!(world.spawn().into_id(), 1);
}

#[test]
fn register_on_empty_registry_adds_one_storage() {
    let world = World::new(10).register::<u32>().register::<u32>();

    assert_eq!(world.type_count(), 1);
}

#[test]
fn despawn_of_absent_id_changes_nothing() {
    let mut world = World::new(5).register::<u32>();
    let id = world.spawn().with::<u32>(3).unwrap().into_id();

    world.despawn(4);
    world.despawn(4);

    assert_eq!(world.get::<u32>(id), Some(&3));
    assert_eq!(world.get_storage::<u32>().unwrap().size(), 1);
}
