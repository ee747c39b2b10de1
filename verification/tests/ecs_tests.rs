use lame_ecs::{Ecs, IntStrCollection};

#[test]
fn lib_new_entity() {
    let mut ecs = Ecs::new(IntStrCollection::new());
    let e0 = ecs.new_entity();
    let e1 = ecs.new_entity();
    assert_ne!(e0, e1);
}

#[test]
fn lib_add_component() {
    let mut ecs = Ecs::new(IntStrCollection::new());
    let e0 = ecs.new_entity();

    let c = 21;
    ecs.add_component::<i32>(e0, c);

    let x = ecs.get_component::<i32>(e0);
    assert!(!x.is_none());
    assert_eq!(*x.unwrap(), 21);
}

#[test]
fn lib_add_existing_component() {
    let mut ecs = Ecs::new(IntStrCollection::new());
    let e0 = ecs.new_entity();

    let c = 42;
    ecs.add_component::<i32>(e0, c);

    let c = 17;
    ecs.add_component::<i32>(e0, c);

    let x = ecs.get_component::<i32>(e0);
    assert!(!x.is_none());
    assert_eq!(*x.unwrap(), 17);
}

#[test]
fn lib_remove_component() {
    let mut ecs = Ecs::new(IntStrCollection::new());
    let e0 = ecs.new_entity();

    let c = 0;
    ecs.add_component::<i32>(e0, c);

    {
        let c = ecs.get_component::<i32>(e0);
        assert!(!c.is_none());
    }

    ecs.remove_component::<i32>(e0);
    let c = ecs.get_component::<i32>(e0);
    assert!(c.is_none());
}

#[test]
fn lib_remove_entity() {
    let mut ecs = Ecs::new(IntStrCollection::new());
    let e0 = ecs.new_entity();

    let int_comp = 0;
    ecs.add_component::<i32>(e0, int_comp);
    let str_comp = "foo".to_owned();
    ecs.add_component::<String>(e0, str_comp);

    let e1 = ecs.new_entity();
    let int_comp = 42;
    ecs.add_component(e1, int_comp);

    {
        let int_comp = ecs.get_component::<i32>(e0);
        assert!(!int_comp.is_none());
        let str_comp = ecs.get_component::<String>(e0);
        assert!(!str_comp.is_none());
        let int_comp = ecs.get_component::<i32>(e1);
        assert!(!int_comp.is_none());
    }

    assert!(ecs.is_alive(e0));
    ecs.remove_entity(e0);
    assert!(!ecs.is_alive(e0));

    let int_comp = ecs.get_component::<i32>(e1);
    assert!(!int_comp.is_none());

    assert!(ecs.is_alive(e1));
    ecs.remove_entity(e1);
    assert!(!ecs.is_alive(e1));
}

#[test]
fn lib_multiple_entities() {
    let mut ecs = Ecs::new(IntStrCollection::new());
    let e0 = ecs.new_entity();
    let e1 = ecs.new_entity();

    let i0 = 10;
    ecs.add_component::<i32>(e0, i0);
    let i1 = 30;
    ecs.add_component::<i32>(e1, i1);

    {
        let i0 = ecs.get_component::<i32>(e0);
        assert!(!i0.is_none());
        assert_eq!(*i0.unwrap(), 10);

        let i1 = ecs.get_component::<i32>(e1);
        assert!(!i1.is_none());
        assert_eq!(*i1.unwrap(), 30);
    }

    let str_comp = "foo".to_owned();
    ecs.add_component::<String>(e1, str_comp);
    assert!(ecs.get_component::<String>(e0).is_none());
    assert!(!ecs.get_component::<String>(e1).is_none());

    assert!(ecs.is_alive(e1));
    ecs.remove_entity(e1);
    assert!(!ecs.is_alive(e1));
    assert!(!ecs.get_component::<i32>(e0).is_none());
}

#[test]
#[should_panic]
fn lib_remove_missing_entity() {
    let mut ecs = Ecs::new(IntStrCollection::new());
    let entity = ecs.new_entity();
    ecs.remove_entity(entity);
    ecs.remove_entity(entity);
}

#[test]
#[should_panic]
fn lib_get_component_on_missing_entity() {
    let mut ecs = Ecs::new(IntStrCollection::new());
    let entity = ecs.new_entity();
    ecs.add_component(entity, String::from("foo"));
    assert!(ecs.get_component::<String>(entity).is_some());
    ecs.remove_entity(entity);
    ecs.get_component::<String>(entity);
}

#[test]
#[should_panic]
fn lib_remove_component_on_missing_entity() {
    let mut ecs = Ecs::new(IntStrCollection::new());
    let entity = ecs.new_entity();
    ecs.add_component(entity, String::from("foo"));
    assert!(ecs.get_component::<String>(entity).is_some());
    ecs.remove_entity(entity);
    ecs.remove_component::<String>(entity);
}

#[test]
#[should_panic]
fn lib_add_component_to_missing_entity() {
    let mut ecs = Ecs::new(IntStrCollection::new());
    let entity = ecs.new_entity();
    ecs.add_component(entity, String::from("foo"));
    assert!(ecs.get_component::<String>(entity).is_some());
    ecs.remove_entity(entity);
    ecs.add_component::<i32>(entity, 42);
}
