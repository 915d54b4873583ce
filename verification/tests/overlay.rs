use opendeck::events::{
    clear_infobar_overlay, push_infobar_overlay, set_infobar_image, ClearInfobarOverlayPayload, SetInfobarImagePayload,
};
use opendeck::model::{Action, ActionContext, ActionInstance, ActionState};
use opendeck::overlay::{
    clear_device_overlays, clear_position_overlays, expire_overlay, get_active_overlay, get_active_overlay_at, live_overlays_at,
    push_overlay, push_overlay_at, stored_infobar_image, update_overlay_image, OverlayStore,
};

fn ctx(device: &str, position: u8) -> ActionContext {
    ActionContext {
        device: device.to_string(),
        profile: "Default".to_string(),
        controller: "Infobar".to_string(),
        position,
        index: 0,
    }
}

fn instance_with_image(image: &str) -> ActionInstance {
    let state = ActionState { image: image.to_string(), text: String::new(), show: true };
    ActionInstance {
        action: Action {
            name: "A".to_string(),
            uuid: "x.y".to_string(),
            plugin: "p".to_string(),
            icon: "icon.png".to_string(),
            states: vec![ActionState { image: image.to_string(), text: String::new(), show: true }],
            controllers: vec!["Infobar".to_string()],
        },
        context: ctx("d", 0),
        states: vec![state],
        current_state: 0,
        settings: "{}".to_string(),
        children: None,
    }
}

#[test]
fn empty_slot_has_no_overlay() {
    let store = OverlayStore::new();
    assert_eq!(get_active_overlay_at(&store, "d", 0, 0), None);
    assert_eq!(get_active_overlay(&store, "d", 0), None);
}

#[test]
fn pushed_overlay_shows() {
    let mut store = OverlayStore::new();
    let id = push_overlay_at(&mut store, "d", 1, "img".to_string(), 10, 0, 5);
    assert_eq!(id, 0);
    assert_eq!(get_active_overlay_at(&store, "d", 1, 5), Some("img".to_string()));
    assert_eq!(get_active_overlay_at(&store, "d", 0, 5), None);
    assert_eq!(get_active_overlay_at(&store, "e", 1, 5), None);
}

#[test]
fn ids_count_up() {
    let mut store = OverlayStore::new();
    assert_eq!(push_overlay_at(&mut store, "d", 0, "a".to_string(), 1, 0, 0), 0);
    assert_eq!(push_overlay_at(&mut store, "d", 0, "b".to_string(), 2, 0, 0), 1);
    assert_eq!(push_overlay(&mut store, "d", 1, "c".to_string(), 2, 0), 2);
    assert_eq!(get_active_overlay(&store, "d", 1), Some("c".to_string()));
}

#[test]
fn highest_priority_wins() {
    let mut store = OverlayStore::new();
    push_overlay_at(&mut store, "d", 0, "low".to_string(), 1, 0, 0);
    push_overlay_at(&mut store, "d", 0, "high".to_string(), 200, 0, 0);
    push_overlay_at(&mut store, "d", 0, "mid".to_string(), 50, 0, 0);
    assert_eq!(get_active_overlay_at(&store, "d", 0, 0), Some("high".to_string()));
}

#[test]
fn same_priority_replaces() {
    let mut store = OverlayStore::new();
    push_overlay_at(&mut store, "d", 0, "first".to_string(), 5, 0, 0);
    push_overlay_at(&mut store, "d", 0, "second".to_string(), 5, 0, 0);
    assert_eq!(get_active_overlay_at(&store, "d", 0, 0), Some("second".to_string()));
}

#[test]
fn expired_overlay_falls_through_to_lower_priority() {
    let mut store = OverlayStore::new();
    push_overlay_at(&mut store, "d", 0, "base".to_string(), 1, 0, 0);
    push_overlay_at(&mut store, "d", 0, "flash".to_string(), 100, 1000, 0);
    assert_eq!(get_active_overlay_at(&store, "d", 0, 999_999_999), Some("flash".to_string()));
    assert_eq!(get_active_overlay_at(&store, "d", 0, 1_000_000_000), Some("base".to_string()));
}

#[test]
fn all_expired_gives_none() {
    let mut store = OverlayStore::new();
    push_overlay_at(&mut store, "d", 0, "a".to_string(), 1, 10, 0);
    assert_eq!(get_active_overlay_at(&store, "d", 0, 9_999_999), Some("a".to_string()));
    assert_eq!(get_active_overlay_at(&store, "d", 0, 10_000_000), None);
}

#[test]
fn expiry_removes_its_own_push() {
    let mut store = OverlayStore::new();
    push_overlay_at(&mut store, "d", 0, "base".to_string(), 1, 0, 0);
    let id = push_overlay_at(&mut store, "d", 0, "flash".to_string(), 100, 1000, 0);
    assert!(expire_overlay(&mut store, "d", 0, 100, id));
    assert_eq!(get_active_overlay_at(&store, "d", 0, 0), Some("base".to_string()));
}

#[test]
fn stale_expiry_keeps_newer_push() {
    let mut store = OverlayStore::new();
    let old_id = push_overlay_at(&mut store, "d", 0, "old".to_string(), 100, 1000, 0);
    push_overlay_at(&mut store, "d", 0, "new".to_string(), 100, 0, 0);
    assert!(!expire_overlay(&mut store, "d", 0, 100, old_id));
    assert_eq!(get_active_overlay_at(&store, "d", 0, 2000), Some("new".to_string()));
}

#[test]
fn expiry_on_unknown_slot_asks_for_render() {
    let mut store = OverlayStore::new();
    assert!(expire_overlay(&mut store, "d", 3, 1, 0));
}

#[test]
fn expiry_of_empty_priority_in_known_slot_does_nothing() {
    let mut store = OverlayStore::new();
    push_overlay_at(&mut store, "d", 0, "a".to_string(), 1, 0, 0);
    assert!(!expire_overlay(&mut store, "d", 0, 2, 0));
    assert_eq!(get_active_overlay_at(&store, "d", 0, 0), Some("a".to_string()));
}

#[test]
fn clearing_a_device_keeps_other_devices() {
    let mut store = OverlayStore::new();
    push_overlay_at(&mut store, "d", 0, "a".to_string(), 1, 0, 0);
    push_overlay_at(&mut store, "d", 1, "b".to_string(), 1, 0, 0);
    push_overlay_at(&mut store, "e", 0, "c".to_string(), 1, 0, 0);
    clear_device_overlays(&mut store, "d");
    assert_eq!(get_active_overlay_at(&store, "d", 0, 0), None);
    assert_eq!(get_active_overlay_at(&store, "d", 1, 0), None);
    assert_eq!(get_active_overlay_at(&store, "e", 0, 0), Some("c".to_string()));
}

#[test]
fn clearing_a_position_keeps_other_positions() {
    let mut store = OverlayStore::new();
    push_overlay_at(&mut store, "d", 0, "a".to_string(), 1, 0, 0);
    push_overlay_at(&mut store, "d", 1, "b".to_string(), 1, 0, 0);
    clear_position_overlays(&mut store, "d", 0);
    assert_eq!(get_active_overlay_at(&store, "d", 0, 0), None);
    assert_eq!(get_active_overlay_at(&store, "d", 1, 0), Some("b".to_string()));
}

#[test]
fn update_replaces_image_of_a_push_in_place() {
    let mut store = OverlayStore::new();
    let id = push_overlay_at(&mut store, "d", 0, "frame0".to_string(), 7, 0, 0);
    assert!(update_overlay_image(&mut store, "d", 0, 7, id, "frame1".to_string()));
    assert_eq!(get_active_overlay_at(&store, "d", 0, 0), Some("frame1".to_string()));
    push_overlay_at(&mut store, "d", 0, "other".to_string(), 7, 0, 0);
    assert!(!update_overlay_image(&mut store, "d", 0, 7, id, "frame2".to_string()));
    assert_eq!(get_active_overlay_at(&store, "d", 0, 0), Some("other".to_string()));
    assert!(!update_overlay_image(&mut store, "x", 0, 7, id, "frame3".to_string()));
}

#[test]
fn stored_image_only_for_data_uris() {
    let infobar = vec![Some(instance_with_image("data:image/png;base64,AAAA")), None, Some(instance_with_image("actionDefaultImage"))];
    assert_eq!(stored_infobar_image(&infobar, 0), Some("data:image/png;base64,AAAA".to_string()));
    assert_eq!(stored_infobar_image(&infobar, 1), None);
    assert_eq!(stored_infobar_image(&infobar, 2), None);
    assert_eq!(stored_infobar_image(&infobar, 9), None);
}

#[test]
fn image_event_with_duration_schedules_expiry() {
    let mut store = OverlayStore::new();
    let payload = SetInfobarImagePayload { context: ctx("d", 2), image: "img".to_string(), priority: 9, duration_ms: 1500 };
    let r = set_infobar_image(&mut store, payload);
    assert_eq!(r.overlay_id, 0);
    let e = r.expiry.expect("an expiry");
    assert_eq!(e.device, "d");
    assert_eq!(e.position, 2);
    assert_eq!(e.priority, 9);
    assert_eq!(e.overlay_id, 0);
    assert_eq!(e.duration_ms, 1500);
    assert_eq!(r.render.controller, "Infobar");
    assert_eq!(r.render.position, 2);
    assert_eq!(r.render.profile, "Default");
    assert_eq!(get_active_overlay(&store, "d", 2), Some("img".to_string()));
}

#[test]
fn permanent_image_event_schedules_nothing() {
    let mut store = OverlayStore::new();
    let r = push_infobar_overlay(&mut store, &ctx("d", 0), "img".to_string(), 1, 0);
    assert!(r.expiry.is_none());
    assert_eq!(get_active_overlay_at(&store, "d", 0, u64::MAX), Some("img".to_string()));
}

#[test]
fn clear_event_removes_the_slot_overlays() {
    let mut store = OverlayStore::new();
    push_overlay_at(&mut store, "d", 0, "a".to_string(), 1, 0, 0);
    clear_infobar_overlay(&mut store, &ClearInfobarOverlayPayload { context: ctx("d", 0) });
    assert_eq!(get_active_overlay_at(&store, "d", 0, 0), None);
}

#[test]
fn push_shows_for_exactly_its_duration() {
    let mut store = OverlayStore::new();
    push_overlay_at(&mut store, "d", 0, "a".to_string(), 1, 50, 100);
    assert_eq!(get_active_overlay_at(&store, "d", 0, 50_000_099), Some("a".to_string()));
    assert_eq!(get_active_overlay_at(&store, "d", 0, 50_000_100), None);
}

#[test]
fn live_overlays_in_priority_order() {
    let mut store = OverlayStore::new();
    push_overlay_at(&mut store, "d", 0, "low".to_string(), 1, 0, 0);
    push_overlay_at(&mut store, "d", 0, "gone".to_string(), 50, 10, 0);
    push_overlay_at(&mut store, "d", 0, "high".to_string(), 200, 0, 0);
    let live: Vec<(u8, String)> = live_overlays_at(&store, "d", 0, 20_000_000).into_iter().map(|e| (e.priority, e.image)).collect();
    assert_eq!(live, vec![(200, "high".to_string()), (1, "low".to_string())]);
    assert!(live_overlays_at(&store, "x", 0, 20_000_000).is_empty());
}

#[test]
fn expiry_removes_its_push_after_other_changes() {
    let mut store = OverlayStore::new();
    push_overlay_at(&mut store, "d", 0, "base".to_string(), 1, 0, 0);
    let id = push_overlay_at(&mut store, "d", 0, "flash".to_string(), 100, 5000, 0);
    push_overlay_at(&mut store, "d", 0, "higher".to_string(), 150, 0, 0);
    push_overlay_at(&mut store, "d", 1, "elsewhere".to_string(), 100, 0, 0);
    clear_position_overlays(&mut store, "d", 2);
    clear_device_overlays(&mut store, "other");
    assert!(!expire_overlay(&mut store, "d", 0, 100, id + 99));
    assert!(expire_overlay(&mut store, "d", 0, 100, id));
    let live: Vec<u8> = live_overlays_at(&store, "d", 0, 0).into_iter().map(|e| e.priority).collect();
    assert_eq!(live, vec![150, 1]);
    assert_eq!(get_active_overlay_at(&store, "d", 1, 0), Some("elsewhere".to_string()));
}
