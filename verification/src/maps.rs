//! The concurrent maps that hold per-slot and per-instance state, as
//! `dashmap::DashMap`s, with what each of their methods that the library calls
//! does to their contents.

use vstd::prelude::*;
use dashmap::DashMap;
use crate::model::ActionContextView;
use crate::overlay::{OverlayEntry, OverlayEntryView};

verus! {

#[verifier::external_type_specification]
#[verifier::external_body]
#[verifier::reject_recursive_types(K)]
#[verifier::reject_recursive_types(V)]
#[verifier::reject_recursive_types(S)]
pub struct ExDashMap<K, V, S>(DashMap<K, V, S>);

/// Per-slot text: slot key (device id, position) to a string.
pub type SlotTextMap = DashMap<(String, u8), String>;

/// Per-slot overlay entries: slot key to the entries in descending priority.
pub type OverlaySlotMap = DashMap<(String, u8), Vec<OverlayEntry>>;

/// Per-instance visibility: (device, profile, controller, position, index) to
/// whether the instance is shown.
pub type VisibilityMap = DashMap<(String, String, String, u8, u16), bool>;

/// What a slot-text map holds.
pub uninterp spec fn slot_texts(m: DashMap<(String, u8), String>) -> Map<(Seq<char>, u8), Seq<char>>;

/// What an overlay map holds.
pub uninterp spec fn overlay_slots(m: DashMap<(String, u8), Vec<OverlayEntry>>) -> Map<(Seq<char>, u8), Seq<OverlayEntryView>>;

/// What a visibility map holds.
pub uninterp spec fn visibility_flags(m: DashMap<(String, String, String, u8, u16), bool>) -> Map<ActionContextView, bool>;

pub open spec fn slot_key(k: (String, u8)) -> (Seq<char>, u8) {
    (k.0@, k.1)
}

pub open spec fn entries_view(v: Seq<OverlayEntry>) -> Seq<OverlayEntryView> {
    v.map_values(|e: OverlayEntry| e@)
}

pub open spec fn instance_key(k: (String, String, String, u8, u16)) -> ActionContextView {
    ActionContextView { device: k.0@, profile: k.1@, controller: k.2@, position: k.3, index: k.4 }
}

/// `DashMap::new`: an empty map.
#[verifier::external_body]
pub(crate) fn slot_text_map_new() -> (r: SlotTextMap)
    ensures
        slot_texts(r).dom().is_empty(),
{
    DashMap::new()
}

/// `DashMap::get`, the value copied out: what the map holds at `key`.
#[verifier::external_body]
pub(crate) fn slot_text_get(m: &DashMap<(String, u8), String>, key: &(String, u8)) -> (r: Option<String>)
    ensures
        r is Some <==> slot_texts(*m).contains_key(slot_key(*key)),
        r matches Some(v) ==> v@ == slot_texts(*m)[slot_key(*key)],
{
    match m.get(key) {
        Some(v) => Some(v.value().clone()),
        None => None,
    }
}

/// `DashMap::insert`: `key` now maps to `value`.
#[verifier::external_body]
pub(crate) fn slot_text_insert(m: &mut DashMap<(String, u8), String>, key: (String, u8), value: String)
    ensures
        slot_texts(*final(m)) == slot_texts(*old(m)).insert(slot_key(key), value@),
{
    m.insert(key, value);
}

/// `DashMap::remove`: `key` no longer maps to anything.
#[verifier::external_body]
pub(crate) fn slot_text_remove(m: &mut DashMap<(String, u8), String>, key: &(String, u8))
    ensures
        slot_texts(*final(m)) == slot_texts(*old(m)).remove(slot_key(*key)),
{
    m.remove(key);
}

/// `DashMap::new`: an empty map.
#[verifier::external_body]
pub(crate) fn overlay_map_new() -> (r: OverlaySlotMap)
    ensures
        overlay_slots(r).dom().is_empty(),
{
    DashMap::new()
}

/// `DashMap::get`, the entries copied out: what the map holds at `key`.
#[verifier::external_body]
pub(crate) fn overlay_get(m: &DashMap<(String, u8), Vec<OverlayEntry>>, key: &(String, u8)) -> (r: Option<Vec<OverlayEntry>>)
    ensures
        r is Some <==> overlay_slots(*m).contains_key(slot_key(*key)),
        r matches Some(v) ==> entries_view(v@) == overlay_slots(*m)[slot_key(*key)],
{
    match m.get(key) {
        Some(v) => Some(v.value().clone()),
        None => None,
    }
}

/// `DashMap::insert`: `key` now maps to `value`.
#[verifier::external_body]
pub(crate) fn overlay_insert(m: &mut DashMap<(String, u8), Vec<OverlayEntry>>, key: (String, u8), value: Vec<OverlayEntry>)
    ensures
        overlay_slots(*final(m)) == overlay_slots(*old(m)).insert(slot_key(key), entries_view(value@)),
{
    m.insert(key, value);
}

/// `DashMap::remove`: `key` no longer maps to anything.
#[verifier::external_body]
pub(crate) fn overlay_remove(m: &mut DashMap<(String, u8), Vec<OverlayEntry>>, key: &(String, u8))
    ensures
        overlay_slots(*final(m)) == overlay_slots(*old(m)).remove(slot_key(*key)),
{
    m.remove(key);
}

/// Whether a slot key belongs to a device other than `device`.
pub(crate) fn key_of_other_device(key: &(String, u8), device: &str) -> (r: bool)
    ensures
        r == (key.0@ != device@),
{
    !crate::text::str_eq(key.0.as_str(), device)
}

/// `DashMap::retain` keeping the keys that `key_of_other_device` accepts:
/// every slot of `device` goes, every other slot stays as it was.
#[verifier::external_body]
pub(crate) fn overlay_retain_other_devices(m: &mut DashMap<(String, u8), Vec<OverlayEntry>>, device: &str)
    ensures
        overlay_slots(*final(m)) == overlay_slots(*old(m)).restrict(
            overlay_slots(*old(m)).dom().filter(|k: (Seq<char>, u8)| k.0 != device@),
        ),
{
    m.retain(|k, _| key_of_other_device(k, device));
}

/// `DashMap::new`: an empty map.
#[verifier::external_body]
pub(crate) fn visibility_map_new() -> (r: VisibilityMap)
    ensures
        visibility_flags(r).dom().is_empty(),
{
    DashMap::new()
}

/// `DashMap::get`, the flag copied out: what the map holds at `key`.
#[verifier::external_body]
pub(crate) fn visibility_get(m: &DashMap<(String, String, String, u8, u16), bool>, key: &(String, String, String, u8, u16)) -> (r: Option<bool>)
    ensures
        r is Some <==> visibility_flags(*m).contains_key(instance_key(*key)),
        r matches Some(v) ==> v == visibility_flags(*m)[instance_key(*key)],
{
    match m.get(key) {
        Some(v) => Some(*v.value()),
        None => None,
    }
}

/// `DashMap::insert`: `key` now maps to `value`.
#[verifier::external_body]
pub(crate) fn visibility_insert(m: &mut DashMap<(String, String, String, u8, u16), bool>, key: (String, String, String, u8, u16), value: bool)
    ensures
        visibility_flags(*final(m)) == visibility_flags(*old(m)).insert(instance_key(key), value),
{
    m.insert(key, value);
}

/// `DashMap::remove`: `key` no longer maps to anything.
#[verifier::external_body]
pub(crate) fn visibility_remove(m: &mut DashMap<(String, String, String, u8, u16), bool>, key: &(String, String, String, u8, u16))
    ensures
        visibility_flags(*final(m)) == visibility_flags(*old(m)).remove(instance_key(*key)),
{
    m.remove(key);
}

} // verus!
