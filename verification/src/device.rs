//! Decisions for Stream Deck hardware: device families, where an image goes,
//! what an input event means, and the image sources and colours the device
//! is given.

use vstd::prelude::*;
use crate::codec::{base64_decode, base64_encoded, decode_rgb8, decoded_rgb8, is_base64};
use crate::text::{has_prefix, is_unicode_whitespace, remove_whitespace, starts_with, str_eq, without_whitespace};

verus! {

/// The Stream Deck models.
pub enum DeviceKind {
    Original,
    OriginalV2,
    Mini,
    Xl,
    XlV2,
    Mk2,
    Mk2Scissor,
    MiniMk2,
    MiniDiscord,
    Neo,
    Pedal,
    Plus,
    MiniMk2Module,
    Mk2Module,
    XlV2Module,
}

/// The family number the front end draws a model by.
pub open spec fn device_type_of(kind: DeviceKind) -> u8 {
    match kind {
        DeviceKind::Original | DeviceKind::OriginalV2 | DeviceKind::Mk2 | DeviceKind::Mk2Scissor | DeviceKind::Mk2Module => 0,
        DeviceKind::Mini | DeviceKind::MiniMk2 | DeviceKind::MiniDiscord | DeviceKind::MiniMk2Module => 1,
        DeviceKind::Xl | DeviceKind::XlV2 | DeviceKind::XlV2Module => 2,
        DeviceKind::Pedal => 5,
        DeviceKind::Plus => 7,
        DeviceKind::Neo => 9,
    }
}

/// The family number of a model.
pub fn device_type(kind: &DeviceKind) -> (r: u8)
    ensures
        r == device_type_of(*kind),
{
    match kind {
        DeviceKind::Original | DeviceKind::OriginalV2 | DeviceKind::Mk2 | DeviceKind::Mk2Scissor | DeviceKind::Mk2Module => 0,
        DeviceKind::Mini | DeviceKind::MiniMk2 | DeviceKind::MiniDiscord | DeviceKind::MiniMk2Module => 1,
        DeviceKind::Xl | DeviceKind::XlV2 | DeviceKind::XlV2Module => 2,
        DeviceKind::Pedal => 5,
        DeviceKind::Plus => 7,
        DeviceKind::Neo => 9,
    }
}

/// How many infobar slots a model has: four on the Plus strip, one on the
/// Neo, none otherwise.
pub fn infobar_count(kind: &DeviceKind) -> (r: u8)
    ensures
        r == (match *kind {
            DeviceKind::Neo => 1u8,
            DeviceKind::Plus => 4u8,
            _ => 0u8,
        }),
{
    match kind {
        DeviceKind::Neo => 1,
        DeviceKind::Plus => 4,
        _ => 0,
    }
}

/// The pixel size of one infobar slot: 200x100 on the Plus, 248x58 else.
pub fn infobar_size(kind: &DeviceKind) -> (r: (u32, u32))
    ensures
        r == (match *kind {
            DeviceKind::Plus => (200u32, 100u32),
            _ => (248u32, 58u32),
        }),
{
    match kind {
        DeviceKind::Plus => (200, 100),
        _ => (248, 58),
    }
}

/// The size of the blank image that clears a model's whole LCD strip:
/// 800x100 on the Plus, 248x58 on the Neo; other models have no strip.
pub fn lcd_clear_size(kind: &DeviceKind) -> (r: Option<(u32, u32)>)
    ensures
        r == (match *kind {
            DeviceKind::Plus => Some((800u32, 100u32)),
            DeviceKind::Neo => Some((248u32, 58u32)),
            _ => None::<(u32, u32)>,
        }),
{
    match kind {
        DeviceKind::Plus => Some((800, 100)),
        DeviceKind::Neo => Some((248, 58)),
        _ => None,
    }
}

/// The brightness a device is set to: the requested percentage, at most 100.
pub fn device_brightness(percent: u8) -> (r: u8)
    ensures
        r == (if percent > 100 { 100 } else { percent }),
{
    if percent > 100 { 100 } else { percent }
}

/// The infobar segment a tap at `x` on the Plus strip lands in (200 pixels
/// each, four segments).
pub fn touch_segment(x: u16) -> (r: u8)
    ensures
        r as int == (if x / 200 < 3 { x / 200 } else { 3 }),
{
    let s = x / 200;
    if s < 3 { s as u8 } else { 3 }
}

/// An input event of a device.
pub enum DeviceUpdate {
    ButtonDown(u8),
    ButtonUp(u8),
    EncoderDown(u8),
    EncoderUp(u8),
    EncoderTwist(u8, i8),
    TouchPointDown(u8),
    TouchPointUp(u8),
    TouchScreenPress(u16, u16),
    TouchScreenLongPress(u16, u16),
    TouchScreenSwipe((u16, u16), (u16, u16)),
}

/// What an input event is forwarded as.
pub enum DeviceAction {
    KeyDown(u8),
    KeyUp(u8),
    DialRotate(u8, i16),
    DialDown(u8),
    DialUp(u8),
    /// A press then release of an infobar segment.
    InfobarTap(u8),
    Ignore,
}

/// Whether a device event can be forwarded: touch points are numbered after
/// the keys, and that number must be a position.
pub open spec fn event_fits(update: DeviceUpdate, key_count: u8) -> bool {
    match update {
        DeviceUpdate::TouchPointDown(p) => key_count + p <= 255,
        DeviceUpdate::TouchPointUp(p) => key_count + p <= 255,
        _ => true,
    }
}

/// Map a device event: buttons and touch points (numbered after the keys)
/// press and release keys, encoders turn and press dials, a tap or long
/// press on the touch strip taps the infobar segment under it, and swipes
/// are ignored.
pub fn plan_device_update(update: &DeviceUpdate, key_count: u8) -> (r: DeviceAction)
    requires
        event_fits(*update, key_count),
    ensures
        match *update {
            DeviceUpdate::ButtonDown(k) => r == DeviceAction::KeyDown(k),
            DeviceUpdate::ButtonUp(k) => r == DeviceAction::KeyUp(k),
            DeviceUpdate::TouchPointDown(p) => r == DeviceAction::KeyDown((key_count + p) as u8),
            DeviceUpdate::TouchPointUp(p) => r == DeviceAction::KeyUp((key_count + p) as u8),
            DeviceUpdate::EncoderTwist(d, t) => r == DeviceAction::DialRotate(d, t as i16),
            DeviceUpdate::EncoderDown(d) => r == DeviceAction::DialDown(d),
            DeviceUpdate::EncoderUp(d) => r == DeviceAction::DialUp(d),
            DeviceUpdate::TouchScreenPress(x, _) | DeviceUpdate::TouchScreenLongPress(x, _) =>
                r == DeviceAction::InfobarTap((if x / 200 < 3 { x / 200 } else { 3 }) as u8),
            DeviceUpdate::TouchScreenSwipe(_, _) => r == DeviceAction::Ignore,
        },
{
    match update {
        DeviceUpdate::ButtonDown(k) => DeviceAction::KeyDown(*k),
        DeviceUpdate::ButtonUp(k) => DeviceAction::KeyUp(*k),
        DeviceUpdate::TouchPointDown(p) => DeviceAction::KeyDown(key_count + *p),
        DeviceUpdate::TouchPointUp(p) => DeviceAction::KeyUp(key_count + *p),
        DeviceUpdate::EncoderTwist(d, t) => DeviceAction::DialRotate(*d, *t as i16),
        DeviceUpdate::EncoderDown(d) => DeviceAction::DialDown(*d),
        DeviceUpdate::EncoderUp(d) => DeviceAction::DialUp(*d),
        DeviceUpdate::TouchScreenPress(x, _) => DeviceAction::InfobarTap(touch_segment(*x)),
        DeviceUpdate::TouchScreenLongPress(x, _) => DeviceAction::InfobarTap(touch_segment(*x)),
        DeviceUpdate::TouchScreenSwipe(_, _) => DeviceAction::Ignore,
    }
}

/// Where an image for a slot is shown.
pub enum ImageTarget {
    /// Composed with the slot's overlays on the infobar.
    Infobar,
    /// The LCD segment above an encoder.
    EncoderLcd,
    /// The LED of a touch point, by touch point number.
    TouchPoint(u8),
    /// A key.
    Button,
}

/// Where the image of slot (`controller`, `position`) goes; keypad
/// positions past the keys are touch points.
pub fn image_target(controller: &str, position: u8, key_count: u8) -> (r: ImageTarget)
    ensures
        controller@ == "Infobar"@ ==> r == ImageTarget::Infobar,
        controller@ != "Infobar"@ && controller@ == "Encoder"@ ==> r == ImageTarget::EncoderLcd,
        controller@ != "Infobar"@ && controller@ != "Encoder"@ ==> (if controller@ == "Keypad"@ && position >= key_count {
            r == ImageTarget::TouchPoint((position - key_count) as u8)
        } else {
            r == ImageTarget::Button
        }),
{
    if str_eq(controller, "Infobar") {
        ImageTarget::Infobar
    } else if str_eq(controller, "Encoder") {
        ImageTarget::EncoderLcd
    } else if str_eq(controller, "Keypad") && position >= key_count {
        ImageTarget::TouchPoint(position - key_count)
    } else {
        ImageTarget::Button
    }
}

/// The x offset on the Plus strip of the LCD segment of encoder `position`;
/// an encoder image is inset by 64 pixels.
pub fn encoder_lcd_x(position: u8, inset: bool) -> (r: u16)
    ensures
        r == position * 200 + (if inset { 64int } else { 0int }),
{
    let base = (position as u16) * 200;
    if inset { base + 64 } else { base }
}

/// The width an infobar image is scaled to inside the 4-pixel safe margins,
/// or `None` when the slot is too narrow to pad.
pub fn safe_padding_inner_width(width: u32) -> (r: Option<u32>)
    ensures
        width <= 8 ==> r is None,
        width > 8 ==> r == Some((width - 8) as u32),
{
    if width <= 8 { None } else { Some(width - 8) }
}

pub open spec fn channel_sum(rgb: Seq<u8>, channel: int, n: nat) -> int
    decreases n,
{
    if n == 0 { 0 } else { channel_sum(rgb, channel, (n - 1) as nat) + rgb[3 * (n - 1) + channel] as int }
}

/// The average of one channel over the whole pixels of `rgb`, rounded down
/// (0 for no pixels).
pub open spec fn channel_average(rgb: Seq<u8>, channel: int) -> int {
    let n = rgb.len() / 3;
    channel_sum(rgb, channel, n) / (if n == 0 { 1 } else { n as int })
}

proof fn lemma_channel_sum_bound(rgb: Seq<u8>, channel: int, n: nat)
    requires
        0 <= channel < 3,
        3 * n <= rgb.len(),
    ensures
        0 <= channel_sum(rgb, channel, n) <= 255 * n,
    decreases n,
{
    if n > 0 {
        lemma_channel_sum_bound(rgb, channel, (n - 1) as nat);
    }
}

/// The average colour of pixels given as R, G, B bytes.
pub fn average_colour(rgb: &[u8]) -> (r: (u8, u8, u8))
    ensures
        r.0 == channel_average(rgb@, 0),
        r.1 == channel_average(rgb@, 1),
        r.2 == channel_average(rgb@, 2),
{
    let len = rgb.len();
    let n = len / 3;
    let mut rs: u128 = 0;
    let mut gs: u128 = 0;
    let mut bs: u128 = 0;
    let mut i: usize = 0;
    while i < n
        invariant
            i <= n == rgb@.len() / 3,
            len == rgb@.len(),
            rs == channel_sum(rgb@, 0, i as nat),
            gs == channel_sum(rgb@, 1, i as nat),
            bs == channel_sum(rgb@, 2, i as nat),
        decreases n - i,
    {
        proof {
            lemma_channel_sum_bound(rgb@, 0, i as nat);
            lemma_channel_sum_bound(rgb@, 1, i as nat);
            lemma_channel_sum_bound(rgb@, 2, i as nat);
            assert(3 * (i as int) + 2 < rgb@.len()) by (nonlinear_arith)
                requires
                    (i as int) < (n as int),
                    (n as int) == rgb@.len() / 3,
            ;
        }
        rs = rs + rgb[3 * i] as u128;
        gs = gs + rgb[3 * i + 1] as u128;
        bs = bs + rgb[3 * i + 2] as u128;
        i = i + 1;
    }
    let count: u128 = if n == 0 { 1 } else { n as u128 };
    proof {
        lemma_channel_sum_bound(rgb@, 0, n as nat);
        lemma_channel_sum_bound(rgb@, 1, n as nat);
        lemma_channel_sum_bound(rgb@, 2, n as nat);
        assert(rs / count <= 255) by (nonlinear_arith)
            requires
                rs <= 255 * (n as int),
                count == (if n == 0 { 1 } else { n as int }),
        ;
        assert(gs / count <= 255) by (nonlinear_arith)
            requires
                gs <= 255 * (n as int),
                count == (if n == 0 { 1 } else { n as int }),
        ;
        assert(bs / count <= 255) by (nonlinear_arith)
            requires
                bs <= 255 * (n as int),
                count == (if n == 0 { 1 } else { n as int }),
        ;
    }
    ((rs / count) as u8, (gs / count) as u8, (bs / count) as u8)
}

/// The colour a touch point shows for an encoded image: its average colour,
/// or nothing when the bytes are no image.
pub fn touchpoint_colour(image_bytes: &[u8]) -> (r: Option<(u8, u8, u8)>)
    ensures
        match decoded_rgb8(image_bytes@) {
            Some(px) => r == Some(
                (channel_average(px, 0) as u8, channel_average(px, 1) as u8, channel_average(px, 2) as u8),
            ),
            None => r is None,
        },
{
    match decode_rgb8(image_bytes) {
        Some(px) => {
            let c = average_colour(px.as_slice());
            Some(c)
        },
        None => None,
    }
}

/// Where the image named by a URI comes from.
pub enum ImageSource {
    /// An empty URI: no image.
    Empty,
    /// A data URI without a comma.
    MalformedDataUri,
    /// A data URI whose payload is not base64.
    BadBase64,
    /// The decoded bytes of a data URI.
    Data(Vec<u8>),
    /// A file path, to be read by the caller.
    File(String),
}

/// The text after the first comma.
pub open spec fn after_first_comma(s: Seq<char>) -> Option<Seq<char>> {
    if exists|i: int| 0 <= i < s.len() && s[i] == ',' {
        let i = choose|i: int| 0 <= i < s.len() && s[i] == ',' && forall|j: int| 0 <= j < i ==> s[j] != ',';
        Some(s.subrange(i + 1, s.len() as int))
    } else {
        None
    }
}

fn split_after_comma(s: &str) -> (r: Option<&str>)
    ensures
        match r {
            Some(t) => after_first_comma(s@) == Some(t@),
            None => after_first_comma(s@) is None,
        },
{
    let n = s.unicode_len();
    let mut i: usize = 0;
    while i < n && s.get_char(i) != ','
        invariant
            i <= n == s@.len(),
            forall|j: int| 0 <= j < i ==> s@[j] != ',',
        decreases n - i,
    {
        i = i + 1;
    }
    if i < n {
        proof {
            let k = choose|k: int| 0 <= k < s@.len() && s@[k] == ',' && forall|j: int| 0 <= j < k ==> s@[j] != ',';
            if k < i {
            } else if k > i {
                assert(s@[i as int] == ',');
            }
        }
        Some(s.substring_char(i + 1, n))
    } else {
        None
    }
}

/// Resolve an image URI: a data URI has its payload (after the first comma,
/// white space removed) decoded as base64; anything else non-empty is a file.
pub fn image_source(uri: &str) -> (r: ImageSource)
    ensures
        uri@.len() == 0 ==> r is Empty,
        uri@.len() > 0 && !has_prefix(uri@, "data:"@) ==> (r matches ImageSource::File(p) && p@ == uri@),
        uri@.len() > 0 && has_prefix(uri@, "data:"@) ==> match after_first_comma(uri@) {
            None => r is MalformedDataUri,
            Some(payload) => if is_base64(without_whitespace(payload)) {
                r matches ImageSource::Data(v) && base64_encoded(v@) == without_whitespace(payload)
            } else {
                r is BadBase64
            },
        },
{
    if uri.unicode_len() == 0 {
        return ImageSource::Empty;
    }
    if !starts_with(uri, "data:") {
        return ImageSource::File(uri.to_owned());
    }
    match split_after_comma(uri) {
        None => ImageSource::MalformedDataUri,
        Some(payload) => {
            let clean = remove_whitespace(payload);
            match base64_decode(clean.as_str()) {
                Some(v) => ImageSource::Data(v),
                None => ImageSource::BadBase64,
            }
        },
    }
}

/// The base64 text of a component thumbnail: what follows the first comma
/// of a data URI, or the whole text when it has no comma.
pub open spec fn thumbnail_payload(image_data: Seq<char>) -> Seq<char> {
    match after_first_comma(image_data) {
        Some(payload) => payload,
        None => image_data,
    }
}

/// The bytes of a component thumbnail, decoded as standard base64 as they
/// stand (white space included); `None` when they are not base64.
pub fn thumbnail_bytes(image_data: &str) -> (r: Option<Vec<u8>>)
    ensures
        r is Some <==> is_base64(thumbnail_payload(image_data@)),
        r matches Some(v) ==> base64_encoded(v@) == thumbnail_payload(image_data@),
{
    match split_after_comma(image_data) {
        Some(payload) => base64_decode(payload),
        None => base64_decode(image_data),
    }
}

/// The base image of an infobar slot names its instance's icon when it is
/// the default placeholder or a built-in asset.
pub fn needs_instance_icon(uri: &str) -> (r: bool)
    ensures
        r == (uri@ == "actionDefaultImage"@ || has_prefix(uri@, "opendeck/"@)),
{
    str_eq(uri, "actionDefaultImage") || starts_with(uri, "opendeck/")
}

/// The URI an infobar slot's base image is loaded from: the placeholder is
/// replaced by the instance icon when there is one; any other URI is kept.
pub fn resolve_base_uri(uri: String, instance_icon: Option<String>) -> (r: String)
    ensures
        r@ == (if uri@ == "actionDefaultImage"@ && instance_icon is Some { instance_icon->0@ } else { uri@ }),
{
    if str_eq(uri.as_str(), "actionDefaultImage") {
        match instance_icon {
            Some(icon) => icon,
            None => uri,
        }
    } else {
        uri
    }
}

/// The text a slot's scroll animation runs for: the component descriptor
/// when the slot has one, else its title when not empty.
pub fn scroll_source(component_json: Option<String>, title: Option<String>) -> (r: Option<String>)
    ensures
        component_json is Some ==> r == component_json,
        component_json is None ==> (match title {
            Some(t) => if t@.len() > 0 { r == Some(t) } else { r is None },
            None => r is None,
        }),
{
    match component_json {
        Some(c) => Some(c),
        None => match title {
            Some(t) => if t.unicode_len() > 0 { Some(t) } else { None },
            None => None,
        },
    }
}

proof fn lemma_after_comma_of_head(head: Seq<char>, rest: Seq<char>)
    requires
        !head.contains(','),
    ensures
        after_first_comma(head + seq![','] + rest) == Some(rest),
{
    let s = head + seq![','] + rest;
    let n = head.len() as int;
    assert(s[n] == ',');
    assert forall|j: int| 0 <= j < n implies s[j] != ',' by {
        assert(s[j] == head[j]);
    }
    let i = choose|i: int| 0 <= i < s.len() && s[i] == ',' && forall|j: int| 0 <= j < i ==> s[j] != ',';
    if i < n {
        assert(s[i] == head[i]);
    }
    assert(i == n);
    assert(s.subrange(n + 1, s.len() as int) =~= rest);
}

proof fn lemma_space_is_dropped(space: Seq<char>)
    requires
        forall|i: int| 0 <= i < space.len() ==> is_unicode_whitespace(#[trigger] space[i]),
    ensures
        without_whitespace(space) == Seq::<char>::empty(),
    decreases space.len(),
{
    reveal_with_fuel(Seq::filter, 1);
    if space.len() > 0 {
        let rest = space.drop_last();
        assert forall|i: int| 0 <= i < rest.len() implies is_unicode_whitespace(#[trigger] rest[i]) by {
            assert(rest[i] == space[i]);
        }
        lemma_space_is_dropped(rest);
        assert(is_unicode_whitespace(space[space.len() - 1]));
    }
    assert(without_whitespace(space) =~= Seq::<char>::empty());
}

proof fn lemma_inserted_space_is_dropped(before: Seq<char>, space: Seq<char>, after: Seq<char>)
    requires
        forall|i: int| 0 <= i < space.len() ==> is_unicode_whitespace(#[trigger] space[i]),
    ensures
        without_whitespace(before + space + after) == without_whitespace(before + after),
{
    let keep = |c: char| !is_unicode_whitespace(c);
    lemma_space_is_dropped(space);
    Seq::filter_distributes_over_add(before, space, keep);
    Seq::filter_distributes_over_add(before + space, after, keep);
    Seq::filter_distributes_over_add(before, after, keep);
    assert(before.filter(keep) + Seq::<char>::empty() =~= before.filter(keep));
}

proof fn lemma_prefix_before_comma(head: Seq<char>, r1: Seq<char>, r2: Seq<char>)
    requires
        !head.contains(','),
    ensures
        has_prefix(head + seq![','] + r1, "data:"@) == has_prefix(head + seq![','] + r2, "data:"@),
{
    let u = head + seq![','] + r1;
    let v = head + seq![','] + r2;
    reveal_strlit("data:");
    let p = "data:"@;
    if head.len() >= 5 {
        assert(u.subrange(0, 5) =~= head.subrange(0, 5));
        assert(v.subrange(0, 5) =~= head.subrange(0, 5));
    } else {
        let n = head.len() as int;
        assert(u[n] == ',' && v[n] == ',');
        assert(p[n] != ',');
        if u.len() >= 5 {
            assert(u.subrange(0, 5)[n] == ',');
        }
        if v.len() >= 5 {
            assert(v.subrange(0, 5)[n] == ',');
        }
    }
}

/// White space inserted anywhere after the first comma of a data URI
/// changes nothing: the URI keeps its `data:` prefix (or lack of it), the
/// payload differs only by that white space, which is dropped before
/// decoding, and base64 text encodes one byte sequence at most; so
/// `image_source` gives the same outcome, and the same bytes, for both.
pub proof fn law_payload_whitespace_is_ignored(
    head: Seq<char>,
    before: Seq<char>,
    space: Seq<char>,
    after: Seq<char>,
    bytes: Seq<u8>,
    spaced_bytes: Seq<u8>,
)
    requires
        !head.contains(','),
        forall|i: int| 0 <= i < space.len() ==> is_unicode_whitespace(#[trigger] space[i]),
    ensures
        has_prefix(head + seq![','] + (before + space + after), "data:"@) == has_prefix(
            head + seq![','] + (before + after),
            "data:"@,
        ),
        after_first_comma(head + seq![','] + (before + after)) == Some(before + after),
        after_first_comma(head + seq![','] + (before + space + after)) == Some(before + space + after),
        without_whitespace(before + space + after) == without_whitespace(before + after),
        base64_encoded(bytes) == without_whitespace(before + after) && base64_encoded(spaced_bytes)
            == without_whitespace(before + space + after) ==> bytes == spaced_bytes,
{
    lemma_prefix_before_comma(head, before + space + after, before + after);
    lemma_after_comma_of_head(head, before + after);
    lemma_after_comma_of_head(head, before + space + after);
    lemma_inserted_space_is_dropped(before, space, after);
    if base64_encoded(bytes) == without_whitespace(before + after) && base64_encoded(spaced_bytes) == without_whitespace(
        before + space + after,
    ) {
        crate::codec::law_base64_is_injective(bytes, spaced_bytes);
    }
}

} // verus!
