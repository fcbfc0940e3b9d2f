use ecs_library::resources::Resource;

const WORLD_WIDTH: u64 = 1;

fn initialize_resources() -> Resource<f32> {
    let mut resources: Resource<f32> = Resource::default();
    resources.add(WORLD_WIDTH, 100.0);
    resources
}

#[test]
fn add_resouce() {
    let resources = initialize_resources();

    let stored_resource = resources.get_ref(WORLD_WIDTH).unwrap();

    assert_eq!(*stored_resource, 100.0)
}

#[test]
fn get_resource() {
    let resources = initialize_resources();

    if let Some(extracted_world_width) = resources.get_ref(WORLD_WIDTH) {
        assert_eq!(*extracted_world_width, 100.0);
    }
}

#[test]
fn get_resorces_mut() {
    let mut resources = initialize_resources();
    {
        let world_width: &mut f32 = resources.get_mut(WORLD_WIDTH);
        *world_width += 1.0;
    }

    let world_width = resources.get_ref(WORLD_WIDTH).unwrap();
    assert_eq!(*world_width, 101.0);
}

#[test]
fn remove_resource() {
    let mut resources = initialize_resources();
    resources.remove(WORLD_WIDTH);
    assert!(!resources.contains(WORLD_WIDTH));
}
