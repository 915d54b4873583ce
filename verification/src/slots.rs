//! What each infobar slot shows: a base image, a title, a component
//! descriptor (as JSON text), the text its scrolling animation runs for, and
//! its overlays.  Slots are keyed by device id and position.

use vstd::prelude::*;
use dashmap::DashMap;
use crate::maps::{slot_text_get, slot_text_insert, slot_text_map_new, slot_text_remove, slot_texts};
use crate::model::ActionContext;
use crate::overlay::{clear_position_overlays, OverlayStore};
use crate::text::str_eq;

verus! {

pub struct InfobarSlots {
    images: DashMap<(String, u8), String>,
    texts: DashMap<(String, u8), String>,
    components: DashMap<(String, u8), String>,
    scroll_tasks: DashMap<(String, u8), String>,
}

pub open spec fn is_infobar_controller(controller: Seq<char>) -> bool {
    controller == "Infobar"@
}

impl InfobarSlots {
    /// Base image of each slot.
    pub closed spec fn images(&self) -> Map<(Seq<char>, u8), Seq<char>> {
        slot_texts(self.images)
    }

    /// Title text of each slot.
    pub closed spec fn texts(&self) -> Map<(Seq<char>, u8), Seq<char>> {
        slot_texts(self.texts)
    }

    /// Component descriptor (JSON) of each slot.
    pub closed spec fn components(&self) -> Map<(Seq<char>, u8), Seq<char>> {
        slot_texts(self.components)
    }

    /// The text each running scroll animation was started for.
    pub closed spec fn scroll_tasks(&self) -> Map<(Seq<char>, u8), Seq<char>> {
        slot_texts(self.scroll_tasks)
    }

    /// Slots that show nothing.
    pub fn new() -> (r: InfobarSlots)
        ensures
            r.images().dom().is_empty(),
            r.texts().dom().is_empty(),
            r.components().dom().is_empty(),
            r.scroll_tasks().dom().is_empty(),
    {
        InfobarSlots {
            images: slot_text_map_new(),
            texts: slot_text_map_new(),
            components: slot_text_map_new(),
            scroll_tasks: slot_text_map_new(),
        }
    }

    pub fn image(&self, device_id: &str, position: u8) -> (r: Option<String>)
        ensures
            r is Some <==> self.images().contains_key((device_id@, position)),
            r matches Some(v) ==> v@ == self.images()[(device_id@, position)],
    {
        slot_text_get(&self.images, &(device_id.to_owned(), position))
    }

    pub fn text(&self, device_id: &str, position: u8) -> (r: Option<String>)
        ensures
            r is Some <==> self.texts().contains_key((device_id@, position)),
            r matches Some(v) ==> v@ == self.texts()[(device_id@, position)],
    {
        slot_text_get(&self.texts, &(device_id.to_owned(), position))
    }

    pub fn component(&self, device_id: &str, position: u8) -> (r: Option<String>)
        ensures
            r is Some <==> self.components().contains_key((device_id@, position)),
            r matches Some(v) ==> v@ == self.components()[(device_id@, position)],
    {
        slot_text_get(&self.components, &(device_id.to_owned(), position))
    }

    pub fn set_image(&mut self, device_id: &str, position: u8, image: String)
        ensures
            final(self).images() == old(self).images().insert((device_id@, position), image@),
            final(self).texts() == old(self).texts(),
            final(self).components() == old(self).components(),
            final(self).scroll_tasks() == old(self).scroll_tasks(),
    {
        slot_text_insert(&mut self.images, (device_id.to_owned(), position), image);
    }

    pub fn set_text(&mut self, device_id: &str, position: u8, text: String)
        ensures
            final(self).texts() == old(self).texts().insert((device_id@, position), text@),
            final(self).images() == old(self).images(),
            final(self).components() == old(self).components(),
            final(self).scroll_tasks() == old(self).scroll_tasks(),
    {
        slot_text_insert(&mut self.texts, (device_id.to_owned(), position), text);
    }

    /// A plugin sets the component a slot renders.
    pub fn set_component(&mut self, device_id: &str, position: u8, component_json: String)
        ensures
            final(self).components() == old(self).components().insert((device_id@, position), component_json@),
            final(self).images() == old(self).images(),
            final(self).texts() == old(self).texts(),
            final(self).scroll_tasks() == old(self).scroll_tasks(),
    {
        slot_text_insert(&mut self.components, (device_id.to_owned(), position), component_json);
    }

    /// Forget the image, title and component of a slot (a profile without an
    /// instance there).
    pub fn forget_slot_content(&mut self, device_id: &str, position: u8)
        ensures
            final(self).images() == old(self).images().remove((device_id@, position)),
            final(self).texts() == old(self).texts().remove((device_id@, position)),
            final(self).components() == old(self).components().remove((device_id@, position)),
            final(self).scroll_tasks() == old(self).scroll_tasks(),
    {
        let key = (device_id.to_owned(), position);
        slot_text_remove(&mut self.images, &key);
        slot_text_remove(&mut self.texts, &key);
        slot_text_remove(&mut self.components, &key);
    }
}

/// Forget that a slot's component animation is running.
pub fn clear_infobar_component_scroll_state(slots: &mut InfobarSlots, device_id: &str, position: u8)
    ensures
        final(slots).scroll_tasks() == old(slots).scroll_tasks().remove((device_id@, position)),
        final(slots).images() == old(slots).images(),
        final(slots).texts() == old(slots).texts(),
        final(slots).components() == old(slots).components(),
{
    slot_text_remove(&mut slots.scroll_tasks, &(device_id.to_owned(), position));
}

/// Whether drawing a slot whose content is `text` starts a scroll animation:
/// when it scrolls and no animation runs for that same text.
pub open spec fn claim_starts(tasks: Map<(Seq<char>, u8), Seq<char>>, key: (Seq<char>, u8), text: Seq<char>, scrolls: bool) -> bool {
    scrolls && !(tasks.contains_key(key) && tasks[key] == text)
}

/// The running animations after drawing a slot whose content is `text`: a
/// slot that does not scroll has none; one that starts records its text.
pub open spec fn after_claim(
    tasks: Map<(Seq<char>, u8), Seq<char>>,
    key: (Seq<char>, u8),
    text: Seq<char>,
    scrolls: bool,
) -> Map<(Seq<char>, u8), Seq<char>> {
    if !scrolls {
        tasks.remove(key)
    } else if claim_starts(tasks, key, text, scrolls) {
        tasks.insert(key, text)
    } else {
        tasks
    }
}

/// Drawing a slot again with the same content starts no second animation
/// and changes nothing.
pub proof fn law_claim_is_idempotent(tasks: Map<(Seq<char>, u8), Seq<char>>, key: (Seq<char>, u8), text: Seq<char>, scrolls: bool)
    ensures
        !claim_starts(after_claim(tasks, key, text, scrolls), key, text, scrolls),
        after_claim(after_claim(tasks, key, text, scrolls), key, text, scrolls) == after_claim(tasks, key, text, scrolls),
{
    if !scrolls {
        assert(tasks.remove(key).remove(key) =~= tasks.remove(key));
    }
}

/// Reading a slot's content gives what was last written there; writing one
/// slot leaves every other as it was.
pub proof fn law_slot_read_after_write(
    m: Map<(Seq<char>, u8), Seq<char>>,
    key: (Seq<char>, u8),
    value: Seq<char>,
    other: (Seq<char>, u8),
)
    requires
        other != key,
    ensures
        m.insert(key, value).contains_key(key) && m.insert(key, value)[key] == value,
        m.insert(key, value).contains_key(other) == m.contains_key(other),
        m.contains_key(other) ==> m.insert(key, value)[other] == m[other],
{
}

/// Whether a scroll animation must start for a slot after it is drawn.  A
/// slot whose content scrolls starts one unless one already runs for the same
/// text (and records the text); a slot whose content does not scroll forgets
/// any running one.
pub fn claim_scroll_task(slots: &mut InfobarSlots, device_id: &str, position: u8, scroll_text: String, scrolls: bool) -> (start: bool)
    ensures
        final(slots).images() == old(slots).images(),
        final(slots).texts() == old(slots).texts(),
        final(slots).components() == old(slots).components(),
        start == claim_starts(old(slots).scroll_tasks(), (device_id@, position), scroll_text@, scrolls),
        final(slots).scroll_tasks() == after_claim(old(slots).scroll_tasks(), (device_id@, position), scroll_text@, scrolls),
{
    let key = (device_id.to_owned(), position);
    if !scrolls {
        slot_text_remove(&mut slots.scroll_tasks, &key);
        return false;
    }
    let current = slot_text_get(&slots.scroll_tasks, &key);
    match current {
        Some(t) => {
            if str_eq(t.as_str(), scroll_text.as_str()) {
                return false;
            }
        },
        None => {},
    }
    slot_text_insert(&mut slots.scroll_tasks, key, scroll_text);
    true
}

/// Whether a scroll animation for `scroll_text` still owns the slot.
pub fn scroll_task_current(slots: &InfobarSlots, device_id: &str, position: u8, scroll_text: &str) -> (r: bool)
    ensures
        r == (slots.scroll_tasks().contains_key((device_id@, position)) && slots.scroll_tasks()[(device_id@, position)] == scroll_text@),
{
    match slot_text_get(&slots.scroll_tasks, &(device_id.to_owned(), position)) {
        Some(t) => str_eq(t.as_str(), scroll_text),
        None => false,
    }
}

/// Forget everything an infobar slot shows when its instance goes away:
/// image, title, component, overlays and scroll animation.  Slots of other
/// controllers hold none of this and are left alone.
pub fn clear_infobar_slot_state(slots: &mut InfobarSlots, overlays: &mut OverlayStore, context: &ActionContext)
    ensures
        final(overlays).next_overlay_id() == old(overlays).next_overlay_id(),
        ({
            let key = (context@.device, context@.position);
            if is_infobar_controller(context@.controller) {
                &&& final(slots).images() == old(slots).images().remove(key)
                &&& final(slots).texts() == old(slots).texts().remove(key)
                &&& final(slots).components() == old(slots).components().remove(key)
                &&& final(slots).scroll_tasks() == old(slots).scroll_tasks().remove(key)
                &&& final(overlays).view() == old(overlays).view().remove(key)
            } else {
                &&& final(slots).images() == old(slots).images()
                &&& final(slots).texts() == old(slots).texts()
                &&& final(slots).components() == old(slots).components()
                &&& final(slots).scroll_tasks() == old(slots).scroll_tasks()
                &&& final(overlays).view() == old(overlays).view()
            }
        }),
{
    if !str_eq(context.controller.as_str(), "Infobar") {
        return;
    }
    let key = (context.device.clone(), context.position);
    slot_text_remove(&mut slots.images, &key);
    slot_text_remove(&mut slots.texts, &key);
    slot_text_remove(&mut slots.components, &key);
    clear_position_overlays(overlays, context.device.as_str(), context.position);
    clear_infobar_component_scroll_state(slots, context.device.as_str(), context.position);
}

/// A title, image or state change on an infobar slot: its component and
/// scroll animation are dropped and the slot shows `text` over `image`.
pub fn record_infobar_render(slots: &mut InfobarSlots, device_id: &str, position: u8, text: String, image: String)
    ensures
        final(slots).components() == old(slots).components().remove((device_id@, position)),
        final(slots).scroll_tasks() == old(slots).scroll_tasks().remove((device_id@, position)),
        final(slots).texts() == old(slots).texts().insert((device_id@, position), text@),
        final(slots).images() == old(slots).images().insert((device_id@, position), image@),
{
    let key = (device_id.to_owned(), position);
    slot_text_remove(&mut slots.components, &key);
    clear_infobar_component_scroll_state(slots, device_id, position);
    slot_text_insert(&mut slots.texts, (device_id.to_owned(), position), text);
    slot_text_insert(&mut slots.images, key, image);
}

} // verus!
