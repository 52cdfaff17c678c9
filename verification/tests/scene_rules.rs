use lvl_core::scene::hierarchy::object_id::ObjectId;
use lvl_core::scene::hierarchy::object_id_allocator::ObjectIdAllocator;
use lvl_core::scene::hierarchy::scene::remove_object_tree;
use lvl_core::scene::hierarchy::scene_action::{apply_scene_action, ControllerCall, SceneAction};
use lvl_core::scene::hierarchy::storage::hierarchy_storage::HierarchyStorage;
use lvl_core::scene::hierarchy::storage::controller_storage::ControllerStorage;
use lvl_core::scene::hierarchy::storage::event_receiver_storage::EventReceiverStorage;
use lvl_core::scene::hierarchy::storage::object_span::ObjectSpan;

#[test]
fn object_ids_hold_their_numbers() {
    let id = ObjectId::new(7);
    assert_eq!(id.get(), 7);
    assert_eq!(id.get_zero_based_u32(), 6);
}

#[test]
fn allocator_counts_up_from_one() {
    let mut allocator = ObjectIdAllocator::new();
    assert_eq!(allocator.allocate().get(), 1);
    assert_eq!(allocator.allocate().get(), 2);
    assert_eq!(allocator.allocate().get(), 3);
}

#[test]
fn allocator_reuses_the_last_given_back_first() {
    let mut allocator = ObjectIdAllocator::new();
    let a = allocator.allocate();
    let b = allocator.allocate();
    let _c = allocator.allocate();
    allocator.deallocate(a);
    allocator.deallocate(b);
    assert_eq!(allocator.allocate(), b);
    assert_eq!(allocator.allocate(), a);
    assert_eq!(allocator.allocate().get(), 4);
}

#[test]
fn span_ranges_cover_index_to_end() {
    let span = ObjectSpan { index: 3, count: 4 };
    assert_eq!(span.to_range(), 3..7);
    let empty = ObjectSpan { index: 5, count: 0 };
    assert_eq!(empty.to_range(), 5..5);
}

#[test]
fn spans_compare_by_index_alone() {
    let a = ObjectSpan { index: 2, count: 1 };
    let b = ObjectSpan { index: 2, count: 9 };
    let c = ObjectSpan { index: 3, count: 1 };
    assert!(a == b);
    assert!(a < c);
    assert_eq!(a.partial_cmp(&b), Some(std::cmp::Ordering::Equal));
}

fn id(n: u32) -> ObjectId {
    ObjectId::new(n)
}

#[test]
fn listeners_are_kept_in_identifier_order() {
    let mut storage = EventReceiverStorage::new();
    storage.listen("hit".to_string(), id(5));
    storage.listen("hit".to_string(), id(2));
    storage.listen("hit".to_string(), id(9));
    storage.listen("hit".to_string(), id(2));
    storage.listen("jump".to_string(), id(5));

    assert_eq!(storage.receivers("hit"), vec![id(2), id(5), id(9)]);
    assert_eq!(storage.receivers("jump"), vec![id(5)]);
    assert_eq!(storage.receivers("nothing"), vec![]);
}

#[test]
fn unlisten_stops_one_event_for_one_object() {
    let mut storage = EventReceiverStorage::new();
    storage.listen("hit".to_string(), id(1));
    storage.listen("hit".to_string(), id(2));
    storage.listen("jump".to_string(), id(1));

    storage.unlisten("hit".to_string(), id(1));
    assert_eq!(storage.receivers("hit"), vec![id(2)]);
    assert_eq!(storage.receivers("jump"), vec![id(1)]);

    storage.unlisten("never".to_string(), id(3));
    assert_eq!(storage.receivers("hit"), vec![id(2)]);
}

#[test]
fn unlisten_all_silences_the_object() {
    let mut storage = EventReceiverStorage::new();
    storage.listen("hit".to_string(), id(1));
    storage.listen("jump".to_string(), id(1));
    storage.listen("jump".to_string(), id(4));

    storage.unlisten_all(id(1));
    assert_eq!(storage.receivers("hit"), vec![]);
    assert_eq!(storage.receivers("jump"), vec![id(4)]);

    storage.unlisten_all(id(8));
    assert_eq!(storage.receivers("jump"), vec![id(4)]);

    storage.listen("hit".to_string(), id(1));
    assert_eq!(storage.receivers("hit"), vec![id(1)]);
}

#[test]
fn controllers_replace_and_detach() {
    let mut storage: ControllerStorage<String> = ControllerStorage::new();
    assert_eq!(storage.attach(id(3), "walker".to_string()), None);
    assert_eq!(storage.attach(id(5), "jumper".to_string()), None);
    assert_eq!(storage.attach(id(3), "runner".to_string()), Some("walker".to_string()));

    assert_eq!(storage.find_controller(id(3)).unwrap().as_str(), "runner");
    storage.find_controller(id(3)).unwrap().push_str("!");
    assert_eq!(storage.find_controller(id(3)).unwrap().as_str(), "runner!");
    assert!(storage.find_controller(id(9)).is_none());

    assert_eq!(storage.detach(id(5)), Some("jumper".to_string()));
    assert_eq!(storage.detach(id(5)), None);
    assert!(storage.find_controller(id(5)).is_none());
}

#[test]
fn only_attached_controllers_are_hooked() {
    let mut storage: ControllerStorage<u8> = ControllerStorage::new();
    storage.listen_on_update(id(1));
    assert_eq!(storage.on_update_ids(), vec![]);

    storage.attach(id(1), 10);
    storage.attach(id(2), 20);
    storage.listen_on_update(id(1));
    storage.listen_on_update(id(1));
    storage.listen_on_late_update(id(2));
    assert_eq!(storage.on_update_ids(), vec![id(1)]);
    assert_eq!(storage.on_late_update_ids(), vec![id(2)]);

    storage.attach(id(1), 11);
    assert_eq!(storage.on_update_ids(), vec![id(1)]);

    storage.detach(id(1));
    assert_eq!(storage.on_update_ids(), vec![]);
    storage.unlisten_on_late_update(id(2));
    assert_eq!(storage.on_late_update_ids(), vec![]);
    storage.unlisten_on_update(id(2));
    assert_eq!(storage.on_update_ids(), vec![]);
}

#[test]
fn removing_an_object_removes_its_tree() {
    let mut allocator = ObjectIdAllocator::new();
    let mut hierarchy = HierarchyStorage::new();
    let ids: Vec<ObjectId> = (0..4).map(|_| allocator.allocate()).collect();
    for &object in &ids {
        hierarchy.add(object);
    }
    hierarchy.set_parent(ids[1], Some(ids[0]));
    hierarchy.set_parent(ids[2], Some(ids[1]));

    let mut events = EventReceiverStorage::new();
    events.listen("hit".to_string(), ids[1]);
    events.listen("hit".to_string(), ids[3]);
    events.listen("jump".to_string(), ids[2]);

    let mut controllers: ControllerStorage<&str> = ControllerStorage::new();
    controllers.attach(ids[0], "root");
    controllers.attach(ids[2], "leaf");
    controllers.attach(ids[3], "other");
    controllers.listen_on_update(ids[2]);

    let detached = remove_object_tree(&mut hierarchy, &mut events, &mut controllers, &mut allocator, ids[1]);

    assert_eq!(detached, vec![(ids[2], "leaf")]);
    assert_eq!(hierarchy.objects(), &[ids[0], ids[3]]);
    assert_eq!(hierarchy.children(ids[0]), &[] as &[ObjectId]);
    assert_eq!(events.receivers("hit"), vec![ids[3]]);
    assert_eq!(events.receivers("jump"), vec![]);
    assert_eq!(controllers.on_update_ids(), vec![]);
    assert!(controllers.find_controller(ids[2]).is_none());
    assert_eq!(controllers.find_controller(ids[0]).map(|c| *c), Some("root"));
    // removing it again changes nothing
    assert!(remove_object_tree(&mut hierarchy, &mut events, &mut controllers, &mut allocator, ids[1]).is_empty());
    assert_eq!(hierarchy.objects(), &[ids[0], ids[3]]);
    // the removed object's identifier is given back once per removed object
    assert_eq!(allocator.allocate(), ids[1]);
    assert_eq!(allocator.allocate(), ids[1]);
    assert_eq!(allocator.allocate(), ObjectId::new(5));
}

#[test]
fn hooked_objects_are_listed_once_each() {
    let mut storage: ControllerStorage<u8> = ControllerStorage::new();
    for n in 1..=4 {
        storage.attach(id(n), n as u8);
        storage.listen_on_update(id(n));
    }
    storage.listen_on_update(id(2));
    storage.unlisten_on_update(id(3));
    let mut hooked = storage.on_update_ids();
    hooked.sort();
    assert_eq!(hooked, vec![id(1), id(2), id(4)]);
}

fn call_names(calls: &[ControllerCall<&'static str, u8>]) -> Vec<String> {
    calls
        .iter()
        .map(|call| match call {
            ControllerCall::OnReady { object_id } => format!("ready {}", object_id.get()),
            ControllerCall::OnDestroy { object_id, controller } => format!("destroy {} {}", object_id.get(), controller),
            ControllerCall::OnActive { object_id } => format!("active {}", object_id.get()),
            ControllerCall::OnInactive { object_id } => format!("inactive {}", object_id.get()),
            ControllerCall::OnEvent { event, param, object_ids } => {
                let ids: Vec<String> = object_ids.iter().map(|id| id.get().to_string()).collect();
                format!("event {} {} [{}]", event, param, ids.join(","))
            }
        })
        .collect()
}

#[test]
fn scene_actions_update_the_storages_and_owe_controller_calls() {
    let mut allocator = ObjectIdAllocator::new();
    let mut hierarchy = HierarchyStorage::new();
    let mut events = EventReceiverStorage::new();
    let mut controllers: ControllerStorage<&'static str> = ControllerStorage::new();
    let ids: Vec<ObjectId> = (0..3).map(|_| allocator.allocate()).collect();
    for &object in &ids {
        hierarchy.add(object);
    }
    hierarchy.set_parent(ids[1], Some(ids[0]));
    let mut apply = |action: SceneAction<&'static str, u8>,
                     hierarchy: &mut HierarchyStorage,
                     events: &mut EventReceiverStorage,
                     controllers: &mut ControllerStorage<&'static str>| {
        call_names(&apply_scene_action(hierarchy, events, controllers, &mut allocator, action))
    };

    let calls = apply(SceneAction::AttachController { object_id: ids[1], controller: "a" }, &mut hierarchy, &mut events, &mut controllers);
    assert_eq!(calls, vec!["ready 2"]);
    let calls = apply(SceneAction::AttachController { object_id: ids[1], controller: "b" }, &mut hierarchy, &mut events, &mut controllers);
    assert_eq!(calls, vec!["destroy 2 a", "ready 2"]);
    let calls = apply(SceneAction::AttachController { object_id: ids[2], controller: "c" }, &mut hierarchy, &mut events, &mut controllers);
    assert_eq!(calls, vec!["ready 3"]);

    let calls = apply(SceneAction::TriggerOnActive { object_id: ids[0] }, &mut hierarchy, &mut events, &mut controllers);
    assert!(calls.is_empty());
    let calls = apply(SceneAction::TriggerOnInactive { object_id: ids[1] }, &mut hierarchy, &mut events, &mut controllers);
    assert_eq!(calls, vec!["inactive 2"]);

    for &object in &ids {
        let calls = apply(SceneAction::ListenEvent { event: "hit".to_string(), object_id: object }, &mut hierarchy, &mut events, &mut controllers);
        assert!(calls.is_empty());
    }
    let calls = apply(SceneAction::EmitEvent { event: "hit".to_string(), param: 7 }, &mut hierarchy, &mut events, &mut controllers);
    assert_eq!(calls, vec!["event hit 7 [2,3]"]);
    let calls = apply(SceneAction::UnlistenEvent { event: "hit".to_string(), object_id: ids[2] }, &mut hierarchy, &mut events, &mut controllers);
    assert!(calls.is_empty());
    let calls = apply(SceneAction::ListenOnUpdate { object_id: ids[2] }, &mut hierarchy, &mut events, &mut controllers);
    assert!(calls.is_empty());
    assert_eq!(controllers.on_update_ids(), vec![ids[2]]);

    let calls = apply(SceneAction::DetachController { object_id: ids[2] }, &mut hierarchy, &mut events, &mut controllers);
    assert_eq!(calls, vec!["destroy 3 c"]);
    assert_eq!(controllers.on_update_ids(), vec![]);

    let calls = apply(SceneAction::RemoveObject { object_id: ids[0] }, &mut hierarchy, &mut events, &mut controllers);
    assert_eq!(calls, vec!["destroy 2 b"]);
    assert_eq!(hierarchy.objects(), &[ids[2]]);
    assert_eq!(events.receivers("hit"), vec![]);
    let calls = apply(SceneAction::RemoveObject { object_id: ids[0] }, &mut hierarchy, &mut events, &mut controllers);
    assert!(calls.is_empty());
}
