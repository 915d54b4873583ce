use opendeck::instances::{
    appear_targets, create_instance, disappear_targets, infobar_key_target, move_instance, rebase_image_paths,
    remove_instance, renumber_children, reorder_child_instance, Removal, MULTI_ACTION_UUID, TOGGLE_ACTION_IMAGE,
    TOGGLE_ACTION_UUID,
};
use opendeck::model::{Action, ActionContext, ActionInstance, ActionState, Context};
use opendeck::stack::{set_visibility, VisibilityStore, ACTION_UUID};

fn slot(controller: &str, position: u8) -> Context {
    Context { device: "sd-1".to_string(), profile: "Default".to_string(), controller: controller.to_string(), position }
}

fn state(image: &str) -> ActionState {
    ActionState { image: image.to_string(), text: String::new(), show: true }
}

fn action(uuid: &str, images: &[&str]) -> Action {
    Action {
        name: uuid.to_string(),
        uuid: uuid.to_string(),
        plugin: "plugin".to_string(),
        icon: "icon.png".to_string(),
        states: images.iter().map(|i| state(i)).collect(),
        controllers: vec!["Keypad".to_string(), "Infobar".to_string()],
    }
}

fn indices(children: &Option<Vec<ActionInstance>>) -> Vec<u16> {
    children.as_ref().unwrap().iter().map(|c| c.context.index).collect()
}

fn uuids(children: &Option<Vec<ActionInstance>>) -> Vec<String> {
    children.as_ref().unwrap().iter().map(|c| c.action.uuid.clone()).collect()
}

#[test]
fn placing_on_empty_slot_creates_instance() {
    let mut s: Option<ActionInstance> = None;
    let r = create_instance(&mut s, action("x.a", &["a.png"]), &slot("Keypad", 4)).unwrap();
    assert_eq!(r.instance.context.index, 0);
    assert_eq!(r.instance.context.position, 4);
    assert_eq!(r.instance.settings, "{}");
    assert_eq!(r.instance.current_state, 0);
    assert!(r.instance.children.is_none());
    assert!(r.parent_to_update.is_none());
    assert_eq!(s.unwrap().action.uuid, "x.a");
}

#[test]
fn containers_start_with_no_children() {
    for uuid in [MULTI_ACTION_UUID, TOGGLE_ACTION_UUID, ACTION_UUID] {
        let mut s: Option<ActionInstance> = None;
        let r = create_instance(&mut s, action(uuid, &["m.png"]), &slot("Keypad", 0)).unwrap();
        assert_eq!(r.instance.children.map(|c| c.len()), Some(0));
    }
}

#[test]
fn unsupported_controller_is_refused() {
    let mut s: Option<ActionInstance> = None;
    assert!(create_instance(&mut s, action("x.a", &["a.png"]), &slot("Encoder", 0)).is_none());
    assert!(s.is_none());
}

#[test]
fn placing_on_a_plain_instance_does_nothing() {
    let mut s: Option<ActionInstance> = None;
    create_instance(&mut s, action("x.a", &["a.png"]), &slot("Keypad", 0));
    assert!(create_instance(&mut s, action("x.b", &["b.png"]), &slot("Keypad", 0)).is_none());
    assert_eq!(s.unwrap().action.uuid, "x.a");
}

#[test]
fn children_are_appended_and_numbered() {
    let mut s: Option<ActionInstance> = None;
    create_instance(&mut s, action(MULTI_ACTION_UUID, &["m.png"]), &slot("Keypad", 0));
    let a = create_instance(&mut s, action("x.a", &["a.png"]), &slot("Keypad", 0)).unwrap();
    assert_eq!(a.instance.context.index, 1);
    let b = create_instance(&mut s, action("x.b", &["b.png"]), &slot("Keypad", 0)).unwrap();
    assert_eq!(b.instance.context.index, 2);
    let p = s.unwrap();
    assert_eq!(indices(&p.children), vec![1, 2]);
    assert_eq!(uuids(&p.children), vec!["x.a".to_string(), "x.b".to_string()]);
}

#[test]
fn toggle_gains_a_state_per_extra_child() {
    let mut s: Option<ActionInstance> = None;
    create_instance(&mut s, action(TOGGLE_ACTION_UUID, &["t.png"]), &slot("Keypad", 0));
    let first = create_instance(&mut s, action("x.a", &["a.png"]), &slot("Keypad", 0)).unwrap();
    assert!(first.parent_to_update.is_none());
    let second = create_instance(&mut s, action("x.b", &["b.png"]), &slot("Keypad", 0)).unwrap();
    assert_eq!(second.parent_to_update.map(|c| c.index), Some(0));
    let p = s.unwrap();
    assert_eq!(p.states.len(), 2);
    assert_eq!(p.states[1].image, TOGGLE_ACTION_IMAGE);
}

fn multi_with(n: usize) -> Option<ActionInstance> {
    let mut s: Option<ActionInstance> = None;
    create_instance(&mut s, action(MULTI_ACTION_UUID, &["m.png"]), &slot("Keypad", 0));
    for k in 0..n {
        let uuid = format!("x.{k}");
        create_instance(&mut s, action(&uuid, &["c.png"]), &slot("Keypad", 0));
    }
    s
}

#[test]
fn reorder_moves_and_renumbers() {
    let mut s = multi_with(3);
    let r = reorder_child_instance(&mut s, &slot("Keypad", 0), 0, 2).unwrap();
    assert_eq!(uuids(&Some(r.old_children)), vec!["x.0".to_string(), "x.1".to_string(), "x.2".to_string()]);
    assert_eq!(uuids(&Some(r.new_children)), vec!["x.1".to_string(), "x.2".to_string(), "x.0".to_string()]);
    let p = s.unwrap();
    assert_eq!(indices(&p.children), vec![1, 2, 3]);
    assert_eq!(uuids(&p.children), vec!["x.1".to_string(), "x.2".to_string(), "x.0".to_string()]);
}

#[test]
fn reorder_out_of_range_is_refused() {
    let mut s = multi_with(2);
    assert!(reorder_child_instance(&mut s, &slot("Keypad", 0), 0, 2).is_none());
    assert!(reorder_child_instance(&mut s, &slot("Keypad", 0), 5, 0).is_none());
    let mut empty: Option<ActionInstance> = None;
    assert!(reorder_child_instance(&mut empty, &slot("Keypad", 0), 0, 0).is_none());
}

#[test]
fn removing_the_slot_instance_empties_the_slot() {
    let mut s = multi_with(1);
    let c = s.as_ref().unwrap().context.duplicate();
    match remove_instance(&mut s, &c) {
        Removal::Slot { instance } => assert_eq!(instance.action.uuid, MULTI_ACTION_UUID),
        _ => panic!("expected the slot instance"),
    }
    assert!(s.is_none());
}

#[test]
fn removing_from_empty_slot_reports_empty() {
    let mut s: Option<ActionInstance> = None;
    let c = ActionContext::from_context(&slot("Keypad", 0), 0);
    assert!(matches!(remove_instance(&mut s, &c), Removal::Empty));
}

#[test]
fn removing_a_child_shifts_later_ones() {
    let mut s = multi_with(3);
    let c = ActionContext::from_context(&slot("Keypad", 0), 1);
    match remove_instance(&mut s, &c) {
        Removal::Child { removed, shifted, toggle_update } => {
            assert_eq!(removed.map(|r| r.action.uuid), Some("x.0".to_string()));
            assert_eq!(shifted.len(), 2);
            assert_eq!(shifted[0].before.context.index, 2);
            assert_eq!(shifted[0].after.context.index, 1);
            assert_eq!(shifted[1].after.action.uuid, "x.2");
            assert!(toggle_update.is_none());
        },
        _ => panic!("expected a child removal"),
    }
    let p = s.unwrap();
    assert_eq!(indices(&p.children), vec![1, 2]);
    assert_eq!(uuids(&p.children), vec!["x.1".to_string(), "x.2".to_string()]);
}

#[test]
fn removing_the_last_child_shifts_nothing() {
    let mut s = multi_with(2);
    let c = ActionContext::from_context(&slot("Keypad", 0), 2);
    match remove_instance(&mut s, &c) {
        Removal::Child { removed, shifted, .. } => {
            assert!(removed.is_some());
            assert!(shifted.is_empty());
        },
        _ => panic!("expected a child removal"),
    }
}

#[test]
fn removing_an_unknown_child_changes_nothing() {
    let mut s = multi_with(2);
    let c = ActionContext::from_context(&slot("Keypad", 0), 9);
    match remove_instance(&mut s, &c) {
        Removal::Child { removed, shifted, .. } => {
            assert!(removed.is_none());
            assert!(shifted.is_empty());
        },
        _ => panic!("expected a child removal"),
    }
    assert_eq!(indices(&s.unwrap().children), vec![1, 2]);
}

#[test]
fn create_then_remove_restores_children() {
    let mut s = multi_with(2);
    let created = create_instance(&mut s, action("x.new", &["n.png"]), &slot("Keypad", 0)).unwrap();
    remove_instance(&mut s, &created.instance.context);
    let p = s.unwrap();
    assert_eq!(indices(&p.children), vec![1, 2]);
    assert_eq!(uuids(&p.children), vec!["x.0".to_string(), "x.1".to_string()]);
}

#[test]
fn toggle_removal_drops_a_state_and_clamps_current() {
    let mut s: Option<ActionInstance> = None;
    create_instance(&mut s, action(TOGGLE_ACTION_UUID, &["t.png"]), &slot("Keypad", 0));
    create_instance(&mut s, action("x.a", &["a.png"]), &slot("Keypad", 0));
    create_instance(&mut s, action("x.b", &["b.png"]), &slot("Keypad", 0));
    s.as_mut().unwrap().current_state = 1;
    let c = ActionContext::from_context(&slot("Keypad", 0), 2);
    match remove_instance(&mut s, &c) {
        Removal::Child { toggle_update, .. } => assert_eq!(toggle_update.map(|t| t.index), Some(0)),
        _ => panic!("expected a child removal"),
    }
    let p = s.unwrap();
    assert_eq!(p.current_state, 0);
    assert_eq!(p.states.len(), 1);
}

#[test]
fn renumbering_gives_one_based_indices() {
    let mut s = multi_with(3);
    let mut children = s.as_mut().unwrap().children.take().unwrap();
    children.swap(0, 2);
    renumber_children(&slot("Keypad", 5), &mut children);
    let idx: Vec<u16> = children.iter().map(|c| c.context.index).collect();
    assert_eq!(idx, vec![1, 2, 3]);
    assert!(children.iter().all(|c| c.context.position == 5));
}

#[test]
fn move_copies_instance_to_free_slot() {
    let s = multi_with(2);
    let moved = move_instance(&slot("Keypad", 0), &slot("Keypad", 7), &s, false).unwrap();
    assert_eq!(moved.context.position, 7);
    assert_eq!(moved.context.index, 0);
    assert_eq!(indices(&moved.children), vec![1, 2]);
    assert!(moved.children.as_ref().unwrap().iter().all(|c| c.context.position == 7));
}

#[test]
fn move_resets_child_images_to_their_action() {
    let mut s = multi_with(0);
    create_instance(&mut s, action("x.e", &[""]), &slot("Keypad", 0));
    create_instance(&mut s, action("x.f", &["f.png"]), &slot("Keypad", 0));
    for c in s.as_mut().unwrap().children.as_mut().unwrap().iter_mut() {
        c.states[0].image = "custom.png".to_string();
    }
    let moved = move_instance(&slot("Keypad", 0), &slot("Keypad", 1), &s, false).unwrap();
    let cs = moved.children.unwrap();
    assert_eq!(cs[0].states[0].image, "icon.png");
    assert_eq!(cs[1].states[0].image, "f.png");
}

#[test]
fn move_is_refused_across_controllers_onto_taken_or_from_empty() {
    let s = multi_with(1);
    assert!(move_instance(&slot("Keypad", 0), &slot("Infobar", 0), &s, false).is_none());
    assert!(move_instance(&slot("Keypad", 0), &slot("Keypad", 1), &s, true).is_none());
    assert!(move_instance(&slot("Keypad", 0), &slot("Keypad", 1), &None, false).is_none());
}

#[test]
fn image_paths_follow_the_moved_folder() {
    let mut states = vec![state("/cfg/images/a/Keypad.0.0/x.png"), state("data:image/png;base64,AA"), state("/cfg/images/a/Keypad.0.00/y.png")];
    rebase_image_paths(&mut states, "/cfg/images/a/Keypad.0.0", "/cfg/images/a/Keypad.7.0");
    assert_eq!(states[0].image, "/cfg/images/a/Keypad.7.0/x.png");
    assert_eq!(states[1].image, "data:image/png;base64,AA");
    assert_eq!(states[2].image, "/cfg/images/a/Keypad.0.00/y.png");
}

fn stack_of_two() -> ActionInstance {
    let mut s: Option<ActionInstance> = None;
    create_instance(&mut s, action(ACTION_UUID, &["s.png"]), &slot("Infobar", 0));
    create_instance(&mut s, action("x.a", &["a.png"]), &slot("Infobar", 0));
    create_instance(&mut s, action("x.b", &["b.png"]), &slot("Infobar", 0));
    s.unwrap()
}

#[test]
fn key_presses_on_a_stack_go_to_its_active_child() {
    let mut store = VisibilityStore::new();
    let stack = stack_of_two();
    assert_eq!(infobar_key_target(&store, &stack).map(|c| c.action.uuid.clone()), Some("x.a".to_string()));
    set_visibility(&mut store, ActionContext::from_context(&slot("Infobar", 0), 1), false);
    assert_eq!(infobar_key_target(&store, &stack).map(|c| c.action.uuid.clone()), Some("x.b".to_string()));
    set_visibility(&mut store, ActionContext::from_context(&slot("Infobar", 0), 2), false);
    assert!(infobar_key_target(&store, &stack).is_none());
    let plain = action_instance_plain();
    assert_eq!(infobar_key_target(&store, &plain).map(|c| c.action.uuid.clone()), Some("x.p".to_string()));
}

fn action_instance_plain() -> ActionInstance {
    let mut s: Option<ActionInstance> = None;
    create_instance(&mut s, action("x.p", &["p.png"]), &slot("Infobar", 1));
    s.unwrap()
}

#[test]
fn stack_trees_appear_and_disappear_through_children() {
    let stack = stack_of_two();
    let appear: Vec<String> = appear_targets(&stack).into_iter().map(|c| c.action.uuid).collect();
    assert_eq!(appear, vec!["x.a".to_string(), "x.b".to_string()]);
    let plan = disappear_targets(&stack, true);
    assert!(plan.clear_stack_slot);
    assert_eq!(plan.disappearances.len(), 2);
    assert!(plan.disappearances.iter().all(|d| !d.clear_on_device));
}

#[test]
fn plain_instances_appear_and_disappear_themselves() {
    let plain = action_instance_plain();
    let appear = appear_targets(&plain);
    assert_eq!(appear.len(), 1);
    assert_eq!(appear[0].action.uuid, "x.p");
    let plan = disappear_targets(&plain, true);
    assert!(!plan.clear_stack_slot);
    assert_eq!(plan.disappearances.len(), 1);
    assert!(plan.disappearances[0].clear_on_device);
}

#[test]
fn renumbering_twice_changes_nothing() {
    let mut s = multi_with(3);
    let mut children = s.as_mut().unwrap().children.take().unwrap();
    renumber_children(&slot("Keypad", 2), &mut children);
    let once: Vec<(u8, u16)> = children.iter().map(|c| (c.context.position, c.context.index)).collect();
    renumber_children(&slot("Keypad", 2), &mut children);
    let twice: Vec<(u8, u16)> = children.iter().map(|c| (c.context.position, c.context.index)).collect();
    assert_eq!(once, twice);
}

fn with_child_count(n: usize) -> Option<ActionInstance> {
    let mut s = multi_with(1);
    let template = s.as_ref().unwrap().children.as_ref().unwrap()[0].duplicate();
    let children: Vec<ActionInstance> = (0..n).map(|_| template.duplicate()).collect();
    s.as_mut().unwrap().children = Some(children);
    s
}

#[test]
fn unsupported_controller_is_refused_even_on_a_full_container() {
    let mut s = multi_with(1);
    s.as_mut().unwrap().children.as_mut().unwrap()[0].context.index = 65535;
    assert!(create_instance(&mut s, action("x.a", &["a.png"]), &slot("Encoder", 0)).is_none());
    assert_eq!(indices(&s.unwrap().children), vec![65535]);
}

#[test]
fn refused_move_ignores_unmovable_source() {
    let mut s = multi_with(1);
    s.as_mut().unwrap().children.as_mut().unwrap()[0].states.push(state("extra.png"));
    assert!(move_instance(&slot("Keypad", 0), &slot("Infobar", 0), &s, false).is_none());
    assert!(move_instance(&slot("Keypad", 0), &slot("Keypad", 1), &s, true).is_none());
}

#[test]
fn out_of_range_reorder_of_a_huge_container_is_refused() {
    let mut s = with_child_count(65536);
    assert!(reorder_child_instance(&mut s, &slot("Keypad", 0), 0, 65536).is_none());
    assert_eq!(s.unwrap().children.unwrap().len(), 65536);
}

#[test]
fn removing_an_unknown_child_of_a_huge_container_changes_nothing() {
    let mut s = with_child_count(65537);
    let c = ActionContext::from_context(&slot("Keypad", 0), 7);
    match remove_instance(&mut s, &c) {
        Removal::Child { removed, shifted, .. } => {
            assert!(removed.is_none());
            assert!(shifted.is_empty());
        },
        _ => panic!("expected a child removal"),
    }
    assert_eq!(s.unwrap().children.unwrap().len(), 65537);
}
