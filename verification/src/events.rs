//! The plugin events that drive the infobar: what each one changes in the
//! stores, and what it asks the caller to do next (render a slot, run an
//! expiry later).

use vstd::prelude::*;
use crate::model::{copy_string, ActionContext, ActionContextView, Context};
use crate::overlay::{after_push, clear_position_overlays, pushed_entry, push_overlay, OverlayEntryView, OverlayStore};
use crate::slots::InfobarSlots;
use crate::stack::{set_visibility, VisibilityStore};

verus! {

/// A plugin shows an image on an infobar slot for a while.
pub struct SetInfobarImagePayload {
    pub context: ActionContext,
    pub image: String,
    pub priority: u8,
    /// How long to show the overlay, in milliseconds; 0 keeps it until it is
    /// cleared.
    pub duration_ms: u64,
}

/// A plugin takes its overlays off an infobar slot early.
pub struct ClearInfobarOverlayPayload {
    pub context: ActionContext,
}

/// A plugin sets the component an infobar slot renders; the component is
/// carried as its JSON text.
pub struct SetInfobarComponentPayload {
    pub context: ActionContext,
    pub component: String,
}

/// A plugin shows or hides one child of an infobar stack.
pub struct SetInfobarItemVisibilityPayload {
    pub visible: bool,
}

/// The removal of one overlay push, to run once its time is up.
pub struct OverlayExpiry {
    pub device: String,
    pub position: u8,
    pub priority: u8,
    pub overlay_id: u64,
    /// How long to wait before the removal, in milliseconds.
    pub duration_ms: u64,
}

/// What an overlay push leaves to do: render the slot now and, for a push
/// with a duration, remove it later.
pub struct OverlayPush {
    pub overlay_id: u64,
    pub expiry: Option<OverlayExpiry>,
    pub render: Context,
}

/// The store after pushing `image` on the slot of `context`, at a clock time
/// no earlier than the store's latest, which the push makes its latest.
pub open spec fn pushed_at_some_time(
    before: Map<(Seq<char>, u8), Map<u8, OverlayEntryView>>,
    after: Map<(Seq<char>, u8), Map<u8, OverlayEntryView>>,
    before_latest: u64,
    after_latest: u64,
    context: ActionContextView,
    id: u64,
    priority: u8,
    image: Seq<char>,
    duration_ms: u64,
) -> bool {
    exists|now: u64|
        now >= before_latest && after_latest == now && after == after_push(
            before,
            (context.device, context.position),
            #[trigger] pushed_entry(id, priority, image, duration_ms, now),
        )
}

/// Push an overlay image on the slot of `context`, and say what follows: the
/// slot is rendered at once, and a push with a duration is removed after it.
pub fn push_infobar_overlay(store: &mut OverlayStore, context: &ActionContext, image: String, priority: u8, duration_ms: u64) -> (r: OverlayPush)
    ensures
        r.overlay_id == old(store).next_overlay_id(),
        pushed_at_some_time(
            old(store).view(),
            final(store).view(),
            old(store).latest_time(),
            final(store).latest_time(),
            context@, r.overlay_id, priority, image@, duration_ms),
        r.render@ == context@.slot(),
        r.expiry is Some <==> duration_ms > 0,
        r.expiry matches Some(e) ==> e.device@ == context@.device && e.position == context.position
            && e.priority == priority && e.overlay_id == r.overlay_id && e.duration_ms == duration_ms,
{
    let overlay_id = push_overlay(store, context.device.as_str(), context.position, image, priority, duration_ms);
    let expiry = if duration_ms > 0 {
        Some(OverlayExpiry {
            device: copy_string(&context.device),
            position: context.position,
            priority,
            overlay_id,
            duration_ms,
        })
    } else {
        None
    };
    OverlayPush { overlay_id, expiry, render: context.slot() }
}

/// The `setInfobarImage` event: push the image as an overlay.
pub fn set_infobar_image(store: &mut OverlayStore, payload: SetInfobarImagePayload) -> (r: OverlayPush)
    ensures
        r.overlay_id == old(store).next_overlay_id(),
        pushed_at_some_time(
            old(store).view(),
            final(store).view(),
            old(store).latest_time(),
            final(store).latest_time(),
            payload.context@,
            r.overlay_id,
            payload.priority,
            payload.image@,
            payload.duration_ms,
        ),
        r.render@ == payload.context@.slot(),
        r.expiry is Some <==> payload.duration_ms > 0,
        r.expiry matches Some(e) ==> e.device@ == payload.context@.device && e.position == payload.context.position
            && e.priority == payload.priority && e.overlay_id == r.overlay_id && e.duration_ms == payload.duration_ms,
{
    push_infobar_overlay(store, &payload.context, payload.image, payload.priority, payload.duration_ms)
}

/// The `clearInfobarOverlay` event: remove every overlay of the slot.
pub fn clear_infobar_overlay(store: &mut OverlayStore, payload: &ClearInfobarOverlayPayload)
    ensures
        final(store).next_overlay_id() == old(store).next_overlay_id(),
        final(store).latest_time() == old(store).latest_time(),
        final(store).view() == old(store).view().remove((payload.context@.device, payload.context.position)),
{
    clear_position_overlays(store, payload.context.device.as_str(), payload.context.position);
}

/// The `setInfobarComponent` event: record the component of the slot.
/// Returns the slot to render.
pub fn set_infobar_component(slots: &mut InfobarSlots, payload: SetInfobarComponentPayload) -> (r: Context)
    ensures
        final(slots).components() == old(slots).components().insert(
            (payload.context@.device, payload.context.position),
            payload.component@,
        ),
        final(slots).images() == old(slots).images(),
        final(slots).texts() == old(slots).texts(),
        final(slots).scroll_tasks() == old(slots).scroll_tasks(),
        r@ == payload.context@.slot(),
{
    let render = payload.context.slot();
    slots.set_component(payload.context.device.as_str(), payload.context.position, payload.component);
    render
}

/// The `setInfobarItemVisibility` event: show or hide the instance.
pub fn set_infobar_item_visibility(store: &mut VisibilityStore, context: ActionContext, payload: &SetInfobarItemVisibilityPayload)
    ensures
        final(store).view() == old(store).view().insert(context@, payload.visible),
{
    set_visibility(store, context, payload.visible);
}

} // verus!
