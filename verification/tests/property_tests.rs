use lame_ecs::{downcast_components, Bar, Entity, Foo, FooBarCollection, World};

#[test]
fn ids_are_strictly_increasing_and_never_reused() {
    let mut world = World::new(FooBarCollection::new());
    let e0 = world.new_entity();
    let e1 = world.new_entity();
    assert_eq!(e0.id(), 0);
    assert_eq!(e1.id(), 1);

    world.remove_entity(e0);
    let e2 = world.new_entity();
    assert_eq!(e2.id(), 2);

    assert!(!world.is_alive(e0));
    assert!(world.is_alive(e1));
    assert!(world.is_alive(e2));
    assert_ne!(e0.id(), e1.id());
    assert_ne!(e1.id(), e2.id());
    assert_ne!(e0.id(), e2.id());
}

#[test]
fn entity_wraps_its_raw_id() {
    let e = Entity::new(7);
    assert_eq!(e.id(), 7);
    assert_eq!(e, Entity::new(7));
    assert_ne!(e, Entity::new(8));
}

#[test]
fn never_issued_id_is_not_alive() {
    let mut world = World::new(FooBarCollection::new());
    world.new_entity();
    assert!(!world.is_alive(Entity::new(99)));
    assert!(!world.is_alive(Entity::new(-1)));
}

#[test]
fn remove_middle_entity_keeps_order_and_bindings() {
    let mut world = World::new(FooBarCollection::new());
    let e0 = world.new_entity();
    let e1 = world.new_entity();
    let e2 = world.new_entity();
    world.add_component(e0, Foo { m: 1 });
    world.add_component(e1, Foo { m: 2 });
    world.add_component(e2, Foo { m: 3 });
    world.add_component(e0, Bar { m: "a".to_owned() });
    world.add_component(e2, Bar { m: "c".to_owned() });

    world.remove_entity(e1);

    assert!(world.is_alive(e0));
    assert!(!world.is_alive(e1));
    assert!(world.is_alive(e2));

    let rows = world.component_iter::<Foo>();
    assert_eq!(rows.len(), 2);
    assert_eq!(rows[0].0, &Foo { m: 1 });
    assert_eq!(rows[0].1, e0);
    assert_eq!(rows[1].0, &Foo { m: 3 });
    assert_eq!(rows[1].1, e2);

    assert_eq!(world.get_component::<Bar>(e0).unwrap().m, "a");
    assert_eq!(world.get_component::<Bar>(e2).unwrap().m, "c");
}

#[test]
fn remove_component_twice_is_a_noop() {
    let mut world = World::new(FooBarCollection::new());
    let e0 = world.new_entity();
    world.add_component(e0, Foo { m: 5 });

    world.remove_component::<Foo>(e0);
    assert!(world.get_component::<Foo>(e0).is_none());

    world.remove_component::<Foo>(e0);
    assert!(world.is_alive(e0));
    assert!(world.get_component::<Foo>(e0).is_none());
}

#[test]
fn joins_on_an_empty_world_yield_nothing() {
    let world = World::new(FooBarCollection::new());
    assert_eq!(world.component_iter::<Foo>().len(), 0);
    assert_eq!(world.component_iter::<Bar>().len(), 0);
    assert_eq!(world.component_iter2::<Foo, Bar>().len(), 0);
}

#[test]
fn join_skips_rows_missing_either_column() {
    let mut world = World::new(FooBarCollection::new());
    let e0 = world.new_entity();
    let e1 = world.new_entity();
    let e2 = world.new_entity();
    world.add_component(e0, Foo { m: 10 });
    world.add_component(e1, Bar { m: "b".to_owned() });
    world.add_component(e2, Foo { m: 30 });
    world.add_component(e2, Bar { m: "c".to_owned() });

    let rows = world.component_iter2::<Foo, Bar>();
    assert_eq!(rows.len(), 1);
    assert_eq!(rows[0].0, &Foo { m: 30 });
    assert_eq!(rows[0].1, &Bar { m: "c".to_owned() });
    assert_eq!(rows[0].2, e2);
}

#[test]
fn overwriting_keeps_other_columns() {
    let mut world = World::new(FooBarCollection::new());
    let e0 = world.new_entity();
    world.add_component(e0, Foo { m: 1 });
    world.add_component(e0, Bar { m: "keep".to_owned() });
    world.add_component(e0, Foo { m: 2 });

    assert_eq!(world.get_component::<Foo>(e0).unwrap().m, 2);
    assert_eq!(world.get_component::<Bar>(e0).unwrap().m, "keep");
}

#[test]
fn storage_can_be_borrowed_back() {
    let mut world = World::new(FooBarCollection::new());
    let e0 = world.new_entity();
    world.add_component(e0, Foo { m: 9 });
    let _shape: &FooBarCollection = downcast_components(&world);
    assert_eq!(world.get_component::<Foo>(e0).unwrap().m, 9);
}
