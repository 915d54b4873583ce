use opendeck::model::{Action, ActionContext, ActionInstance, ActionState, DeviceInfo, Profile};
use opendeck::profiles::{
    infobar_action_uuids, infobar_refresh, keeps_infobar_render, plan_slot_updates, profile_instances, shows_profile_pill,
    InfobarRefresh,
};

fn inst(uuid: &str, controller: &str, position: u8, image: &str) -> ActionInstance {
    ActionInstance {
        action: Action {
            name: uuid.to_string(),
            uuid: uuid.to_string(),
            plugin: "p".to_string(),
            icon: "icon.png".to_string(),
            states: vec![ActionState { image: image.to_string(), text: String::new(), show: true }],
            controllers: vec![controller.to_string()],
        },
        context: ActionContext {
            device: "sd-1".to_string(),
            profile: "P".to_string(),
            controller: controller.to_string(),
            position,
            index: 0,
        },
        states: vec![ActionState { image: image.to_string(), text: String::new(), show: true }],
        current_state: 0,
        settings: "{}".to_string(),
        children: None,
    }
}

fn profile() -> Profile {
    Profile {
        id: "P".to_string(),
        keys: vec![Some(inst("k.0", "Keypad", 0, "k0.png")), None, Some(inst("k.2", "Keypad", 2, "k2.png"))],
        sliders: vec![None, Some(inst("e.1", "Encoder", 1, "e1.png"))],
        infobar: vec![Some(inst("i.0", "Infobar", 0, "i0.png")), None],
    }
}

fn info() -> DeviceInfo {
    DeviceInfo {
        id: "sd-1".to_string(),
        plugin: String::new(),
        name: "Deck".to_string(),
        rows: 1,
        columns: 3,
        encoders: 2,
        touchpoints: 0,
        infobar: 2,
        device_type: 7,
    }
}

#[test]
fn instances_in_slot_order() {
    let ids: Vec<String> = profile_instances(&profile()).into_iter().map(|i| i.action.uuid).collect();
    assert_eq!(ids, vec!["k.0".to_string(), "k.2".to_string(), "e.1".to_string(), "i.0".to_string()]);
}

#[test]
fn infobar_uuids() {
    assert_eq!(infobar_action_uuids(&profile()), vec![Some("i.0".to_string()), None]);
}

#[test]
fn same_action_keeps_render() {
    let old = vec![Some("a".to_string()), None, Some("b".to_string())];
    let new = vec![Some("a".to_string()), None, Some("c".to_string())];
    assert!(keeps_infobar_render(&old, &new, 0));
    assert!(!keeps_infobar_render(&old, &new, 1));
    assert!(!keeps_infobar_render(&old, &new, 2));
    assert!(!keeps_infobar_render(&old, &new, 3));
}

#[test]
fn switch_redraws_controls_and_changed_infobar_slots() {
    let p = profile();
    let old_uuids = vec![Some("i.0".to_string()), Some("gone".to_string())];
    let new_uuids = infobar_action_uuids(&p);
    let r = plan_slot_updates("sd-1", &info(), &p, &old_uuids, &new_uuids, &vec![None, None], &vec![None, None], &vec![false, false]);
    let described: Vec<(String, u8, Option<String>)> =
        r.into_iter().map(|u| (u.context.controller, u.context.position, u.image)).collect();
    assert_eq!(
        described,
        vec![
            ("Keypad".to_string(), 0, Some("k0.png".to_string())),
            ("Keypad".to_string(), 1, None),
            ("Keypad".to_string(), 2, Some("k2.png".to_string())),
            ("Encoder".to_string(), 0, None),
            ("Encoder".to_string(), 1, Some("e1.png".to_string())),
        ]
    );
}

#[test]
fn changed_component_redraws_infobar_slot() {
    let p = profile();
    let uuids = vec![None, None];
    let r = plan_slot_updates(
        "sd-1",
        &info(),
        &p,
        &uuids,
        &uuids,
        &vec![Some("{a}".to_string()), None],
        &vec![Some("{b}".to_string()), None],
        &vec![false, true],
    );
    let infobar: Vec<u8> = r.iter().filter(|u| u.context.controller == "Infobar").map(|u| u.context.position).collect();
    assert_eq!(infobar, vec![0, 1]);
    assert!(r.iter().all(|u| u.context.profile == "P" && u.context.device == "sd-1"));
}

#[test]
fn pill_only_when_switching_with_setting_and_infobar() {
    assert!(shows_profile_pill(true, true, 1));
    assert!(!shows_profile_pill(false, true, 1));
    assert!(!shows_profile_pill(true, false, 4));
    assert!(!shows_profile_pill(true, true, 0));
}

#[test]
fn infobar_refresh_after_switch() {
    assert!(matches!(infobar_refresh(&None), InfobarRefresh::Forget));
    match infobar_refresh(&Some(inst("x.i", "Infobar", 0, "i0.png"))) {
        InfobarRefresh::Show { image, icon, text } => {
            assert_eq!(image, "i0.png");
            assert_eq!(icon, "icon.png");
            assert_eq!(text, "");
        },
        _ => panic!("expected the state to show"),
    }
    let stack = inst("opendeck.infobarstack", "Infobar", 0, "s.png");
    assert!(matches!(infobar_refresh(&Some(stack)), InfobarRefresh::Leave));
}
