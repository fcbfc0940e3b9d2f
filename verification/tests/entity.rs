use ecs_library::World;

#[derive(Clone, Copy, Debug, PartialEq)]
enum Comp {
    Location(f32, f32),
    Size(f32),
}

const LOCATION: u64 = 1;
const SIZE: u64 = 2;

fn location_of(c: Comp) -> (f32, f32) {
    match c {
        Comp::Location(x, y) => (x, y),
        _ => panic!("expected a location component"),
    }
}

fn size_of(c: Comp) -> f32 {
    match c {
        Comp::Size(s) => s,
        _ => panic!("expected a size component"),
    }
}

#[test]
fn create_entity() {
    let mut world: World<Comp, f32> = World::new();
    world.register_component(LOCATION);
    world.register_component(SIZE);

    let e = world.create_entity();
    e.with_component(LOCATION, Comp::Location(42.0, 24.0)).unwrap();
    e.with_component(SIZE, Comp::Size(10.0)).unwrap();
}

#[test]
fn query_for_entities() {
    let mut world: World<Comp, f32> = World::new();
    world.register_component(LOCATION);
    world.register_component(SIZE);

    let e = world.create_entity();
    e.with_component(LOCATION, Comp::Location(42.0, 24.0)).unwrap();
    e.with_component(SIZE, Comp::Size(10.0)).unwrap();

    let e = world.create_entity();
    e.with_component(SIZE, Comp::Size(11.0)).unwrap();

    let e = world.create_entity();
    e.with_component(LOCATION, Comp::Location(43.0, 25.0)).unwrap();

    let e = world.create_entity();
    e.with_component(LOCATION, Comp::Location(44.0, 26.0)).unwrap();
    e.with_component(SIZE, Comp::Size(12.0)).unwrap();

    let mut query = world.query();
    query.with_component(LOCATION).unwrap();
    query.with_component(SIZE).unwrap();
    let query = query.run();

    let locations = &query.1[0];
    let sizes = &query.1[1];
    let indexes = &query.0;

    assert_eq!(locations.len(), sizes.len());
    assert_eq!(locations.len(), 2);
    assert_eq!(locations.len(), indexes.len());

    let first_location = location_of(locations[0]);
    assert_eq!(first_location.0, 42.0);
    let first_size = size_of(sizes[0]);
    assert_eq!(first_size, 10.0);

    let second_location = location_of(locations[1]);
    assert_eq!(second_location.0, 44.0);
    let mut second_size = size_of(sizes[1]);
    second_size += 1.0;
    assert_eq!(second_size, 13.0);
}

#[test]
fn deleted_component_from_entitiy() {
    let mut world: World<Comp, f32> = World::new();
    world.register_component(LOCATION);
    world.register_component(SIZE);

    let e = world.create_entity();
    e.with_component(LOCATION, Comp::Location(10.0, 11.0)).unwrap();
    e.with_component(SIZE, Comp::Size(10.0)).unwrap();

    let e = world.create_entity();
    e.with_component(LOCATION, Comp::Location(20.0, 21.0)).unwrap();
    e.with_component(SIZE, Comp::Size(20.0)).unwrap();

    world.delete_component_by_entity_id(LOCATION, 0).unwrap();

    let mut query = world.query();
    query.with_component(LOCATION).unwrap();
    query.with_component(SIZE).unwrap();
    let query = query.run();
    let indexes = &query.0;

    assert_eq!(indexes.len(), 1);
    assert_eq!(indexes[0], 1);
}

#[test]
fn add_component_to_entity() {
    let mut world: World<Comp, f32> = World::new();
    world.register_component(LOCATION);
    world.register_component(SIZE);

    let e = world.create_entity();
    e.with_component(LOCATION, Comp::Location(10.0, 11.0)).unwrap();

    world.add_component_to_entity_by_id(SIZE, Comp::Size(20.0), 0).unwrap();

    let mut query = world.query();
    query.with_component(LOCATION).unwrap();
    query.with_component(SIZE).unwrap();
    let query = query.run();

    let indexes = &query.0;
    assert_eq!(indexes.len(), 1);
}

#[test]
fn deleting_an_entity() {
    let mut world: World<Comp, f32> = World::new();
    world.register_component(LOCATION);
    world.register_component(SIZE);
    let e = world.create_entity();
    e.with_component(LOCATION, Comp::Location(10.0, 11.0)).unwrap();
    let e = world.create_entity();
    e.with_component(LOCATION, Comp::Location(20.0, 21.0)).unwrap();

    world.delete_entity_by_id(0).unwrap();

    let mut query = world.query();
    query.with_component(LOCATION).unwrap();
    let query = query.run();
    let indexes = &query.0;
    assert_eq!(indexes.len(), 1);

    let locations = &query.1[0];
    let location = location_of(locations[0]);
    assert_eq!(location.0, 20.0);
    assert_eq!(location.1, 21.0);

    let e = world.create_entity();
    e.with_component(LOCATION, Comp::Location(30.0, 35.0)).unwrap();
    let mut query = world.query();
    query.with_component(LOCATION).unwrap();
    let query = query.run();
    let indexes = &query.0;
    assert_eq!(indexes.len(), 2);

    let locations = &query.1[0];
    let location = location_of(locations[0]);
    assert_eq!(location.0, 30.0);
    assert_eq!(location.1, 35.0);
}
