use ecs_library::entity::query::Query;
use ecs_library::entity::Entites;

#[derive(Clone, Copy, Debug, PartialEq)]
enum Comp {
    Unsigned(u32),
    Float(f32),
}

const UNSIGNED: u64 = 1;
const FLOAT: u64 = 2;

fn unsigned_of(c: Comp) -> u32 {
    match c {
        Comp::Unsigned(u) => u,
        _ => panic!("expected an unsigned component"),
    }
}

fn float_of(c: Comp) -> f32 {
    match c {
        Comp::Float(f) => f,
        _ => panic!("expected a float component"),
    }
}

#[test]
fn query_mask_updating_with_component() {
    let mut entities: Entites<Comp> = Entites::default();
    entities.register_component(UNSIGNED);
    entities.register_component(FLOAT);

    let mut query = Query::new(&entities);
    query.with_component(UNSIGNED).unwrap();
    query.with_component(FLOAT).unwrap();

    assert_eq!(query.mask(), 3);
    assert_eq!(UNSIGNED, query.kinds()[0]);
    assert_eq!(FLOAT, query.kinds()[1]);
}

#[test]
fn run_qurey() {
    let mut entities: Entites<Comp> = Entites::default();
    entities.register_component(UNSIGNED);
    entities.register_component(FLOAT);

    let e = entities.create_entity();
    e.with_component(UNSIGNED, Comp::Unsigned(10)).unwrap();
    e.with_component(FLOAT, Comp::Float(20.2)).unwrap();
    let e = entities.create_entity();
    e.with_component(UNSIGNED, Comp::Unsigned(5)).unwrap();
    let e = entities.create_entity();
    e.with_component(FLOAT, Comp::Float(10.2)).unwrap();
    let e = entities.create_entity();
    e.with_component(UNSIGNED, Comp::Unsigned(15)).unwrap();
    e.with_component(FLOAT, Comp::Float(30.2)).unwrap();

    let mut query = Query::new(&entities);
    query.with_component(UNSIGNED).unwrap();
    query.with_component(FLOAT).unwrap();

    let query_result = query.run();
    let unsigneds = &query_result.1[0];
    let floats = &query_result.1[1];
    let indexes = query_result.0;

    assert!(unsigneds.len() == floats.len() && unsigneds.len() == indexes.len());
    assert_eq!(unsigneds.len(), 2);

    assert_eq!(unsigned_of(unsigneds[0]), 10);
    assert_eq!(float_of(floats[0]), 20.2);

    assert_eq!(unsigned_of(unsigneds[1]), 15);
    assert_eq!(float_of(floats[1]), 30.2);

    assert_eq!(indexes[0], 0);
    assert_eq!(indexes[1], 3);
}
