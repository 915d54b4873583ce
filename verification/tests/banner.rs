use opendeck::banner::{extract_profile_name, make_infobar_context, ProfileBannerAction, ProfileBannerSettings};

#[test]
fn profile_name_is_between_device_and_last_three_pieces() {
    assert_eq!(extract_profile_name("sd-ABC123.Default.Keypad.3.0"), "Default");
}

#[test]
fn profile_name_may_hold_dots() {
    assert_eq!(extract_profile_name("sd-ABC123.My.Work.Profile.Encoder.1.2"), "My.Work.Profile");
}

#[test]
fn short_instance_id_gives_placeholder_name() {
    assert_eq!(extract_profile_name("sd-ABC123.Keypad.3.0"), "Profile");
    assert_eq!(extract_profile_name(""), "Profile");
}

#[test]
fn infobar_context_replaces_controller_position_and_index() {
    assert_eq!(make_infobar_context("sd-ABC123.Default.Keypad.3.0", 1), "sd-ABC123.Default.Infobar.1.0");
    assert_eq!(make_infobar_context("sd-X.A.B.Encoder.2.7", 255), "sd-X.A.B.Infobar.255.0");
}

#[test]
fn short_instance_id_is_kept_as_infobar_context() {
    assert_eq!(make_infobar_context("sd-X.Keypad.3.0", 2), "sd-X.Keypad.3.0");
}

#[test]
fn infobar_context_keeps_profile_name() {
    let id = "sd-X.Home.Office.Keypad.14.0";
    let target = make_infobar_context(id, 3);
    assert_eq!(extract_profile_name(&target), extract_profile_name(id));
}

#[test]
fn default_settings_target_first_slot_for_three_seconds() {
    let s = ProfileBannerSettings::default();
    assert_eq!(s.target_position, 0);
    assert_eq!(s.duration_ms, 3000);
}

#[test]
fn banner_request_uses_settings() {
    let action = ProfileBannerAction;
    let settings = ProfileBannerSettings { target_position: 2, duration_ms: 5000 };
    let r = action.overlay_request("sd-X.Gaming.Keypad.0.0", &settings);
    assert_eq!(r.profile_name, "Gaming");
    assert_eq!(r.context, "sd-X.Gaming.Infobar.2.0");
    assert_eq!(r.priority, 100);
    assert_eq!(r.duration_ms, 5000);
}

#[test]
fn zero_banner_duration_means_three_seconds() {
    let action = ProfileBannerAction;
    let settings = ProfileBannerSettings { target_position: 0, duration_ms: 0 };
    let r = action.overlay_request("sd-X.Gaming.Keypad.0.0", &settings);
    assert_eq!(r.duration_ms, 3000);
}
