use opendeck::device::{
    average_colour, device_brightness, device_type, encoder_lcd_x, lcd_clear_size, image_source, image_target, infobar_count, infobar_size,
    needs_instance_icon, plan_device_update, resolve_base_uri, safe_padding_inner_width, scroll_source,
    thumbnail_bytes, touch_segment, touchpoint_colour, DeviceAction, DeviceKind, DeviceUpdate, ImageSource, ImageTarget,
};

fn png_of(width: u32, height: u32, pixels: Vec<u8>) -> Vec<u8> {
    let img = image::RgbImage::from_raw(width, height, pixels).unwrap();
    let mut buf = std::io::Cursor::new(Vec::new());
    img.write_to(&mut buf, image::ImageFormat::Png).unwrap();
    buf.into_inner()
}

#[test]
fn device_families() {
    assert_eq!(device_type(&DeviceKind::Original), 0);
    assert_eq!(device_type(&DeviceKind::Mk2Module), 0);
    assert_eq!(device_type(&DeviceKind::MiniDiscord), 1);
    assert_eq!(device_type(&DeviceKind::XlV2), 2);
    assert_eq!(device_type(&DeviceKind::Pedal), 5);
    assert_eq!(device_type(&DeviceKind::Plus), 7);
    assert_eq!(device_type(&DeviceKind::Neo), 9);
}

#[test]
fn infobar_slots_per_model() {
    assert_eq!(infobar_count(&DeviceKind::Plus), 4);
    assert_eq!(infobar_count(&DeviceKind::Neo), 1);
    assert_eq!(infobar_count(&DeviceKind::Xl), 0);
    assert_eq!(infobar_size(&DeviceKind::Plus), (200, 100));
    assert_eq!(infobar_size(&DeviceKind::Neo), (248, 58));
}

#[test]
fn touch_strip_segments() {
    assert_eq!(touch_segment(0), 0);
    assert_eq!(touch_segment(199), 0);
    assert_eq!(touch_segment(200), 1);
    assert_eq!(touch_segment(799), 3);
    assert_eq!(touch_segment(1000), 3);
}

#[test]
fn device_events_map_to_actions() {
    assert!(matches!(plan_device_update(&DeviceUpdate::ButtonDown(3), 8), DeviceAction::KeyDown(3)));
    assert!(matches!(plan_device_update(&DeviceUpdate::ButtonUp(3), 8), DeviceAction::KeyUp(3)));
    assert!(matches!(plan_device_update(&DeviceUpdate::TouchPointDown(1), 8), DeviceAction::KeyDown(9)));
    assert!(matches!(plan_device_update(&DeviceUpdate::TouchPointUp(0), 8), DeviceAction::KeyUp(8)));
    assert!(matches!(plan_device_update(&DeviceUpdate::EncoderTwist(2, -3), 8), DeviceAction::DialRotate(2, -3)));
    assert!(matches!(plan_device_update(&DeviceUpdate::EncoderDown(1), 8), DeviceAction::DialDown(1)));
    assert!(matches!(plan_device_update(&DeviceUpdate::EncoderUp(1), 8), DeviceAction::DialUp(1)));
    assert!(matches!(plan_device_update(&DeviceUpdate::TouchScreenPress(450, 10), 8), DeviceAction::InfobarTap(2)));
    assert!(matches!(plan_device_update(&DeviceUpdate::TouchScreenLongPress(900, 10), 8), DeviceAction::InfobarTap(3)));
    assert!(matches!(
        plan_device_update(&DeviceUpdate::TouchScreenSwipe((0, 0), (300, 0)), 8),
        DeviceAction::Ignore
    ));
}

#[test]
fn image_targets() {
    assert!(matches!(image_target("Infobar", 0, 8), ImageTarget::Infobar));
    assert!(matches!(image_target("Encoder", 2, 8), ImageTarget::EncoderLcd));
    assert!(matches!(image_target("Keypad", 9, 8), ImageTarget::TouchPoint(1)));
    assert!(matches!(image_target("Keypad", 7, 8), ImageTarget::Button));
}

#[test]
fn encoder_lcd_offsets() {
    assert_eq!(encoder_lcd_x(0, false), 0);
    assert_eq!(encoder_lcd_x(2, true), 464);
    assert_eq!(encoder_lcd_x(3, false), 600);
}

#[test]
fn safe_padding_width() {
    assert_eq!(safe_padding_inner_width(248), Some(240));
    assert_eq!(safe_padding_inner_width(9), Some(1));
    assert_eq!(safe_padding_inner_width(8), None);
    assert_eq!(safe_padding_inner_width(0), None);
}

#[test]
fn average_of_pixels() {
    assert_eq!(average_colour(&[10, 20, 30, 30, 40, 50]), (20, 30, 40));
    assert_eq!(average_colour(&[10, 20, 30, 30, 40, 50, 99]), (20, 30, 40));
    assert_eq!(average_colour(&[255, 255, 255, 0, 0, 1]), (127, 127, 128));
    assert_eq!(average_colour(&[]), (0, 0, 0));
}

#[test]
fn touchpoint_colour_of_a_png() {
    let png = png_of(2, 1, vec![10, 20, 30, 30, 40, 50]);
    assert_eq!(touchpoint_colour(&png), Some((20, 30, 40)));
}

#[test]
fn touchpoint_colour_of_garbage_is_none() {
    assert_eq!(touchpoint_colour(b"not an image"), None);
}

#[test]
fn image_sources() {
    assert!(matches!(image_source(""), ImageSource::Empty));
    assert!(matches!(image_source("data:image/png;base64"), ImageSource::MalformedDataUri));
    assert!(matches!(image_source("data:image/png;base64,@@@@"), ImageSource::BadBase64));
    match image_source("data:image/png;base64, aGVs\nbG8=") {
        ImageSource::Data(v) => assert_eq!(v, b"hello".to_vec()),
        _ => panic!("expected decoded bytes"),
    }
    match image_source("/plugins/x/icon.png") {
        ImageSource::File(p) => assert_eq!(p, "/plugins/x/icon.png"),
        _ => panic!("expected a file path"),
    }
}

#[test]
fn non_canonical_padding_is_bad_base64() {
    assert!(matches!(image_source("data:,aGVsbG8"), ImageSource::BadBase64));
}

#[test]
fn base_image_resolution() {
    assert!(needs_instance_icon("actionDefaultImage"));
    assert!(needs_instance_icon("opendeck/toggle-action.png"));
    assert!(!needs_instance_icon("data:image/png;base64,AAAA"));
    assert_eq!(resolve_base_uri("actionDefaultImage".to_string(), Some("icon.png".to_string())), "icon.png");
    assert_eq!(resolve_base_uri("actionDefaultImage".to_string(), None), "actionDefaultImage");
    assert_eq!(resolve_base_uri("opendeck/x.png".to_string(), Some("icon.png".to_string())), "opendeck/x.png");
}

#[test]
fn scroll_sources() {
    assert_eq!(scroll_source(Some("{}".to_string()), Some("t".to_string())), Some("{}".to_string()));
    assert_eq!(scroll_source(None, Some("title".to_string())), Some("title".to_string()));
    assert_eq!(scroll_source(None, Some(String::new())), None);
    assert_eq!(scroll_source(None, None), None);
}

#[test]
fn lcd_clear_sizes() {
    assert_eq!(lcd_clear_size(&DeviceKind::Plus), Some((800, 100)));
    assert_eq!(lcd_clear_size(&DeviceKind::Neo), Some((248, 58)));
    assert_eq!(lcd_clear_size(&DeviceKind::Mini), None);
}

#[test]
fn brightness_is_at_most_a_hundred() {
    assert_eq!(device_brightness(0), 0);
    assert_eq!(device_brightness(55), 55);
    assert_eq!(device_brightness(100), 100);
    assert_eq!(device_brightness(255), 100);
}

#[test]
fn thumbnails_decode_after_the_first_comma_or_whole() {
    assert_eq!(thumbnail_bytes("data:image/png;base64,aGVsbG8="), Some(b"hello".to_vec()));
    assert_eq!(thumbnail_bytes("aGVsbG8="), Some(b"hello".to_vec()));
    assert_eq!(thumbnail_bytes("data:,aGVs bG8="), None);
    assert_eq!(thumbnail_bytes("data:,a,GVsbG8="), None);
}

#[test]
fn white_space_in_the_payload_gives_the_same_bytes() {
    let plain = image_source("data:image/png;base64,aGVsbG8=");
    let spaced = image_source("data:image/png;base64,aG Vs\tbG\n8=");
    match (plain, spaced) {
        (ImageSource::Data(a), ImageSource::Data(b)) => assert_eq!(a, b),
        _ => panic!("expected decoded bytes"),
    }
}
