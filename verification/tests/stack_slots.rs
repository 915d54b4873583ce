use opendeck::events::{set_infobar_component, set_infobar_item_visibility, SetInfobarComponentPayload, SetInfobarItemVisibilityPayload};
use opendeck::model::{Action, ActionContext, ActionInstance, ActionState};
use opendeck::overlay::{get_active_overlay_at, push_overlay_at, OverlayStore};
use opendeck::slots::{
    claim_scroll_task, clear_infobar_component_scroll_state, clear_infobar_slot_state, record_infobar_render,
    scroll_task_current, InfobarSlots,
};
use opendeck::stack::{
    active_child, clear_visibility, effective_state, is_infobar_stack, is_visible, set_visibility, sync_parent_display,
    VisibilityStore, ACTION_UUID, BLANK_IMAGE_DATA_URL,
};

fn ctx(controller: &str, position: u8, index: u16) -> ActionContext {
    ActionContext {
        device: "sd-1".to_string(),
        profile: "Default".to_string(),
        controller: controller.to_string(),
        position,
        index,
    }
}

fn state(image: &str, text: &str) -> ActionState {
    ActionState { image: image.to_string(), text: text.to_string(), show: true }
}

fn action(uuid: &str) -> Action {
    Action {
        name: "Action".to_string(),
        uuid: uuid.to_string(),
        plugin: "plugin".to_string(),
        icon: "icon.png".to_string(),
        states: vec![state("a.png", "")],
        controllers: vec!["Infobar".to_string(), "Keypad".to_string()],
    }
}

fn instance(uuid: &str, context: ActionContext, states: Vec<ActionState>, children: Option<Vec<ActionInstance>>) -> ActionInstance {
    ActionInstance { action: action(uuid), context, states, current_state: 0, settings: "{}".to_string(), children }
}

fn stack_with_two_children() -> ActionInstance {
    let c1 = instance("x.first", ctx("Infobar", 0, 1), vec![state("one.png", "One")], None);
    let c2 = instance("x.second", ctx("Infobar", 0, 2), vec![state("two.png", "Two")], None);
    instance(ACTION_UUID, ctx("Infobar", 0, 0), vec![state("s.png", "")], Some(vec![c1, c2]))
}

#[test]
fn stacks_are_recognised_by_uuid() {
    assert!(is_infobar_stack(&stack_with_two_children()));
    assert!(!is_infobar_stack(&instance("x.other", ctx("Infobar", 0, 0), vec![], None)));
}

#[test]
fn instances_are_visible_until_hidden() {
    let mut store = VisibilityStore::new();
    let c = ctx("Infobar", 0, 1);
    assert!(is_visible(&store, &c));
    set_visibility(&mut store, c.duplicate(), false);
    assert!(!is_visible(&store, &c));
    assert!(is_visible(&store, &ctx("Infobar", 0, 2)));
    set_visibility(&mut store, c.duplicate(), true);
    assert!(is_visible(&store, &c));
    set_visibility(&mut store, c.duplicate(), false);
    clear_visibility(&mut store, &c);
    assert!(is_visible(&store, &c));
}

#[test]
fn active_child_is_first_visible() {
    let mut store = VisibilityStore::new();
    let s = stack_with_two_children();
    assert_eq!(active_child(&store, &s).map(|c| c.context.index), Some(1));
    set_visibility(&mut store, ctx("Infobar", 0, 1), false);
    assert_eq!(active_child(&store, &s).map(|c| c.context.index), Some(2));
    set_visibility(&mut store, ctx("Infobar", 0, 2), false);
    assert!(active_child(&store, &s).is_none());
    let lone = instance("x.other", ctx("Keypad", 1, 0), vec![], None);
    assert!(active_child(&store, &lone).is_none());
}

#[test]
fn effective_state_is_active_child_state_or_blank() {
    let mut store = VisibilityStore::new();
    let s = stack_with_two_children();
    let st = effective_state(&store, &s);
    assert_eq!(st.image, "one.png");
    assert_eq!(st.text, "One");
    set_visibility(&mut store, ctx("Infobar", 0, 1), false);
    set_visibility(&mut store, ctx("Infobar", 0, 2), false);
    let blank = effective_state(&store, &s);
    assert_eq!(blank.image, BLANK_IMAGE_DATA_URL);
    assert_eq!(blank.text, "");
    assert!(!blank.show);
}

#[test]
fn sync_makes_stack_show_its_active_child() {
    let mut store = VisibilityStore::new();
    set_visibility(&mut store, ctx("Infobar", 0, 1), false);
    let mut slot = Some(stack_with_two_children());
    let changed = sync_parent_display(&store, &mut slot);
    assert_eq!(changed.map(|c| c.index), Some(0));
    let parent = slot.unwrap();
    assert_eq!(parent.states.len(), 1);
    assert_eq!(parent.states[0].image, "two.png");
    assert_eq!(parent.current_state, 0);
    assert_eq!(parent.children.as_ref().map(|c| c.len()), Some(2));
}

#[test]
fn sync_leaves_other_slots_alone() {
    let store = VisibilityStore::new();
    let mut empty: Option<ActionInstance> = None;
    assert!(sync_parent_display(&store, &mut empty).is_none());
    assert!(empty.is_none());
    let mut plain = Some(instance("x.other", ctx("Infobar", 1, 0), vec![state("p.png", ""), state("q.png", "")], None));
    assert!(sync_parent_display(&store, &mut plain).is_none());
    assert_eq!(plain.unwrap().states.len(), 2);
}

#[test]
fn sync_twice_is_sync_once() {
    let store = VisibilityStore::new();
    let mut slot = Some(stack_with_two_children());
    sync_parent_display(&store, &mut slot);
    let once = slot.as_ref().unwrap().states[0].image.clone();
    sync_parent_display(&store, &mut slot);
    let p = slot.unwrap();
    assert_eq!(p.states.len(), 1);
    assert_eq!(p.states[0].image, once);
}

#[test]
fn visibility_event_hides_child() {
    let mut store = VisibilityStore::new();
    set_infobar_item_visibility(&mut store, ctx("Infobar", 0, 1), &SetInfobarItemVisibilityPayload { visible: false });
    assert!(!is_visible(&store, &ctx("Infobar", 0, 1)));
}

#[test]
fn component_event_records_component() {
    let mut slots = InfobarSlots::new();
    let render = set_infobar_component(
        &mut slots,
        SetInfobarComponentPayload { context: ctx("Infobar", 3, 0), component: "{\"type\":\"text\",\"text\":\"Hi\"}".to_string() },
    );
    assert_eq!(render.position, 3);
    assert_eq!(render.controller, "Infobar");
    assert_eq!(slots.component("sd-1", 3), Some("{\"type\":\"text\",\"text\":\"Hi\"}".to_string()));
    assert_eq!(slots.component("sd-1", 2), None);
}

#[test]
fn scroll_task_claimed_once_per_text() {
    let mut slots = InfobarSlots::new();
    assert!(claim_scroll_task(&mut slots, "sd-1", 0, "long".to_string(), true));
    assert!(!claim_scroll_task(&mut slots, "sd-1", 0, "long".to_string(), true));
    assert!(scroll_task_current(&slots, "sd-1", 0, "long"));
    assert!(claim_scroll_task(&mut slots, "sd-1", 0, "other".to_string(), true));
    assert!(!scroll_task_current(&slots, "sd-1", 0, "long"));
    assert!(!claim_scroll_task(&mut slots, "sd-1", 0, "other".to_string(), false));
    assert!(!scroll_task_current(&slots, "sd-1", 0, "other"));
}

#[test]
fn clearing_scroll_state_stops_the_animation() {
    let mut slots = InfobarSlots::new();
    claim_scroll_task(&mut slots, "sd-1", 1, "t".to_string(), true);
    clear_infobar_component_scroll_state(&mut slots, "sd-1", 1);
    assert!(!scroll_task_current(&slots, "sd-1", 1, "t"));
}

#[test]
fn render_record_drops_component_and_scroll() {
    let mut slots = InfobarSlots::new();
    slots.set_component("sd-1", 0, "{}".to_string());
    claim_scroll_task(&mut slots, "sd-1", 0, "{}".to_string(), true);
    record_infobar_render(&mut slots, "sd-1", 0, "Title".to_string(), "img.png".to_string());
    assert_eq!(slots.component("sd-1", 0), None);
    assert!(!scroll_task_current(&slots, "sd-1", 0, "{}"));
    assert_eq!(slots.text("sd-1", 0), Some("Title".to_string()));
    assert_eq!(slots.image("sd-1", 0), Some("img.png".to_string()));
}

#[test]
fn clearing_an_infobar_slot_forgets_everything() {
    let mut slots = InfobarSlots::new();
    let mut overlays = OverlayStore::new();
    slots.set_image("sd-1", 2, "i".to_string());
    slots.set_text("sd-1", 2, "t".to_string());
    slots.set_component("sd-1", 2, "{}".to_string());
    slots.set_image("sd-1", 3, "keep".to_string());
    push_overlay_at(&mut overlays, "sd-1", 2, "o".to_string(), 1, 0, 0);
    clear_infobar_slot_state(&mut slots, &mut overlays, &ctx("Infobar", 2, 0));
    assert_eq!(slots.image("sd-1", 2), None);
    assert_eq!(slots.text("sd-1", 2), None);
    assert_eq!(slots.component("sd-1", 2), None);
    assert_eq!(slots.image("sd-1", 3), Some("keep".to_string()));
    assert_eq!(get_active_overlay_at(&overlays, "sd-1", 2, 0), None);
}

#[test]
fn clearing_a_key_slot_keeps_infobar_state() {
    let mut slots = InfobarSlots::new();
    let mut overlays = OverlayStore::new();
    slots.set_image("sd-1", 2, "i".to_string());
    clear_infobar_slot_state(&mut slots, &mut overlays, &ctx("Keypad", 2, 0));
    assert_eq!(slots.image("sd-1", 2), Some("i".to_string()));
}

#[test]
fn visibility_follows_the_last_change_about_an_instance() {
    let mut store = VisibilityStore::new();
    let a = ctx("Infobar", 0, 1);
    let b = ctx("Infobar", 0, 2);
    set_visibility(&mut store, a.duplicate(), false);
    set_visibility(&mut store, b.duplicate(), true);
    clear_visibility(&mut store, &b);
    set_visibility(&mut store, ctx("Infobar", 1, 1), true);
    assert!(!is_visible(&store, &a));
    set_visibility(&mut store, a.duplicate(), true);
    set_visibility(&mut store, b.duplicate(), false);
    assert!(is_visible(&store, &a));
    assert!(!is_visible(&store, &b));
    assert!(is_visible(&store, &ctx("Infobar", 3, 0)));
}
