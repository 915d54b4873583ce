//! Infobar stacks: an infobar action whose children take turns on the slot.
//! Each instance may be hidden; the stack shows its first visible child.

use vstd::prelude::*;
use dashmap::DashMap;
use crate::maps::{instance_key, visibility_flags, visibility_get, visibility_insert, visibility_map_new, visibility_remove};
use crate::model::{
    lemma_instances_view, ActionContext, ActionContextView, ActionInstance, ActionInstanceView, ActionState,
    ActionStateView,
};
use crate::text::str_eq;

verus! {

/// The identifier of the infobar stack action.
pub const ACTION_UUID: &'static str = "opendeck.infobarstack";

/// A one-pixel transparent GIF, shown by a stack without a visible child.
pub const BLANK_IMAGE_DATA_URL: &'static str = "data:image/gif;base64,R0lGODlhAQABAIAAAAAAAP///ywAAAAAAQABAAACAUwAOw==";

/// Whether each instance is shown; instances without an entry are.
pub struct VisibilityStore {
    flags: DashMap<(String, String, String, u8, u16), bool>,
}

impl VisibilityStore {
    pub closed spec fn view(&self) -> Map<ActionContextView, bool> {
        visibility_flags(self.flags)
    }

    /// A store in which every instance is visible.
    pub fn new() -> (r: VisibilityStore)
        ensures
            r.view() == Map::<ActionContextView, bool>::empty(),
    {
        let r = VisibilityStore { flags: visibility_map_new() };
        assert(r.view() =~= Map::<ActionContextView, bool>::empty());
        r
    }
}

pub open spec fn visible_in(flags: Map<ActionContextView, bool>, context: ActionContextView) -> bool {
    if flags.contains_key(context) { flags[context] } else { true }
}

pub open spec fn is_stack_action(instance: ActionInstanceView) -> bool {
    instance.action.uuid == "opendeck.infobarstack"@
}

/// The first visible child of an instance, if it has children and one is
/// visible.
pub open spec fn active_child_of(flags: Map<ActionContextView, bool>, instance: ActionInstanceView) -> Option<ActionInstanceView> {
    match instance.children {
        None => None,
        Some(cs) => if exists|i: int| 0 <= i < cs.len() && visible_in(flags, #[trigger] cs[i].context) {
            let i = choose|i: int|
                0 <= i < cs.len() && visible_in(flags, #[trigger] cs[i].context) && (forall|j: int|
                    0 <= j < i ==> !visible_in(flags, #[trigger] cs[j].context));
            Some(cs[i])
        } else {
            None
        },
    }
}

pub open spec fn blank_state() -> ActionStateView {
    ActionStateView { image: BLANK_IMAGE_DATA_URL@, text: Seq::empty(), show: false }
}

/// What a stack shows: the current state of its active child, or a blank
/// hidden state.
pub open spec fn effective_state_of(flags: Map<ActionContextView, bool>, instance: ActionInstanceView) -> ActionStateView {
    match active_child_of(flags, instance) {
        Some(c) => if c.current_state < c.states.len() {
            c.states[c.current_state as int]
        } else {
            blank_state()
        },
        None => blank_state(),
    }
}

fn key_of(context: &ActionContext) -> (r: (String, String, String, u8, u16))
    ensures
        instance_key(r) == context@,
{
    (context.device.clone(), context.profile.clone(), context.controller.clone(), context.position, context.index)
}

/// Whether an instance is an infobar stack.
pub fn is_infobar_stack(instance: &ActionInstance) -> (r: bool)
    ensures
        r == is_stack_action(instance@),
{
    str_eq(instance.action.uuid.as_str(), ACTION_UUID)
}

/// Whether an instance is visible.
pub fn is_visible(store: &VisibilityStore, context: &ActionContext) -> (r: bool)
    ensures
        r == visible_in(store.view(), context@),
{
    match visibility_get(&store.flags, &key_of(context)) {
        Some(v) => v,
        None => true,
    }
}

/// Show or hide an instance.
pub fn set_visibility(store: &mut VisibilityStore, context: ActionContext, visible: bool)
    ensures
        final(store).view() == old(store).view().insert(context@, visible),
{
    let key = key_of(&context);
    visibility_insert(&mut store.flags, key, visible);
}

/// Forget whether an instance was hidden; it is visible again.
pub fn clear_visibility(store: &mut VisibilityStore, context: &ActionContext)
    ensures
        final(store).view() == old(store).view().remove(context@),
{
    visibility_remove(&mut store.flags, &key_of(context));
}

proof fn lemma_first_visible(flags: Map<ActionContextView, bool>, instance: ActionInstanceView, i: int)
    requires
        instance.children is Some,
        0 <= i < instance.children->0.len(),
        visible_in(flags, instance.children->0[i].context),
        forall|j: int| 0 <= j < i ==> !visible_in(flags, #[trigger] instance.children->0[j].context),
    ensures
        active_child_of(flags, instance) == Some(instance.children->0[i]),
{
    let cs = instance.children->0;
    assert(visible_in(flags, cs[i].context));
    let k = choose|k: int|
        0 <= k < cs.len() && visible_in(flags, #[trigger] cs[k].context) && (forall|j: int|
            0 <= j < k ==> !visible_in(flags, #[trigger] cs[j].context));
    if k < i {
        assert(!visible_in(flags, cs[k].context));
    } else if k > i {
        assert(!visible_in(flags, cs[i].context));
    }
}

proof fn lemma_none_visible(flags: Map<ActionContextView, bool>, instance: ActionInstanceView)
    requires
        instance.children is Some,
        forall|j: int| 0 <= j < instance.children->0.len() ==> !visible_in(flags, #[trigger] instance.children->0[j].context),
    ensures
        active_child_of(flags, instance) is None,
{
}

/// The first visible child of an instance.
pub fn active_child<'a>(store: &VisibilityStore, instance: &'a ActionInstance) -> (r: Option<&'a ActionInstance>)
    ensures
        match r {
            Some(c) => active_child_of(store.view(), instance@) == Some(c@),
            None => active_child_of(store.view(), instance@) is None,
        },
{
    let children = match &instance.children {
        Some(v) => v,
        None => return None,
    };
    let ghost flags = store.view();
    let ghost cs = crate::model::instances_view(children@);
    proof {
        lemma_instances_view(children@);
        assert(instance@.children == Some(cs));
    }
    let mut i: usize = 0;
    while i < children.len()
        invariant
            i <= children.len(),
            flags == store.view(),
            instance@.children == Some(cs),
            cs.len() == children@.len(),
            forall|k: int| 0 <= k < children@.len() ==> #[trigger] cs[k] == children@[k]@,
            forall|j: int| 0 <= j < i ==> !visible_in(flags, #[trigger] cs[j].context),
        decreases children.len() - i,
    {
        if is_visible(store, &children[i].context) {
            proof {
                assert(cs[i as int] == children@[i as int]@);
                lemma_first_visible(flags, instance@, i as int);
            }
            return Some(&children[i]);
        }
        proof {
            assert(cs[i as int] == children@[i as int]@);
        }
        i = i + 1;
    }
    proof {
        lemma_none_visible(flags, instance@);
    }
    None
}

fn blank() -> (r: ActionState)
    ensures
        r@ == blank_state(),
{
    ActionState { image: BLANK_IMAGE_DATA_URL.to_owned(), text: String::new(), show: false }
}

/// What a stack shows on its slot.
pub fn effective_state(store: &VisibilityStore, instance: &ActionInstance) -> (r: ActionState)
    ensures
        r@ == effective_state_of(store.view(), instance@),
{
    match active_child(store, instance) {
        Some(child) => {
            if (child.current_state as usize) < child.states.len() {
                proof {
                    assert(child@.states[child.current_state as int] == child.states@[child.current_state as int]@);
                }
                child.states[child.current_state as usize].duplicate()
            } else {
                blank()
            }
        },
        None => blank(),
    }
}

pub open spec fn synced_parent(flags: Map<ActionContextView, bool>, parent: ActionInstanceView) -> ActionInstanceView {
    ActionInstanceView { states: seq![effective_state_of(flags, parent)], current_state: 0, ..parent }
}

pub open spec fn opt_view(o: Option<ActionInstance>) -> Option<ActionInstanceView> {
    match o {
        Some(i) => Some(i@),
        None => None,
    }
}

/// Make an infobar stack in `slot` show what its active child shows: its
/// states become that one state and its current state the first.  Returns the
/// address of the stack when it changed; a slot that is empty or holds no
/// stack is left alone.
pub fn sync_parent_display(store: &VisibilityStore, slot: &mut Option<ActionInstance>) -> (r: Option<ActionContext>)
    ensures
        match *old(slot) {
            Some(parent) => if is_stack_action(parent@) {
                &&& r matches Some(c) && c@ == parent@.context
                &&& opt_view(*final(slot)) == Some(synced_parent(store.view(), parent@))
            } else {
                r is None && opt_view(*final(slot)) == opt_view(*old(slot))
            },
            None => r is None && opt_view(*final(slot)) == opt_view(*old(slot)),
        },
{
    let mut taken = slot.take();
    let r = match &mut taken {
        Some(parent) => {
            if !is_infobar_stack(parent) {
                None
            } else {
                let state = effective_state(store, parent);
                let mut states: Vec<ActionState> = Vec::new();
                states.push(state);
                parent.states = states;
                parent.current_state = 0;
                proof {
                    assert(crate::model::states_view(parent.states@) =~= seq![effective_state_of(store.view(), old(slot)->0@)]);
                }
                Some(parent.context.duplicate())
            }
        },
        None => None,
    };
    *slot = taken;
    r
}

/// Reading a visibility gives back what was last set for that instance, and
/// setting one instance leaves every other as it was.
pub proof fn law_visibility_read_after_write(
    flags: Map<ActionContextView, bool>,
    context: ActionContextView,
    visible: bool,
    other: ActionContextView,
)
    requires
        other != context,
    ensures
        visible_in(flags.insert(context, visible), context) == visible,
        visible_in(flags.insert(context, visible), other) == visible_in(flags, other),
{
}

/// A cleared instance is visible again.
pub proof fn law_cleared_instance_is_visible(flags: Map<ActionContextView, bool>, context: ActionContextView)
    ensures
        visible_in(flags.remove(context), context),
{
}

/// Syncing a stack twice is syncing it once: what it shows depends on its
/// children alone, which syncing leaves as they are.
pub proof fn law_sync_is_idempotent(flags: Map<ActionContextView, bool>, parent: ActionInstanceView)
    ensures
        synced_parent(flags, synced_parent(flags, parent)) == synced_parent(flags, parent),
        is_stack_action(synced_parent(flags, parent)) == is_stack_action(parent),
{
    assert(active_child_of(flags, synced_parent(flags, parent)) == active_child_of(flags, parent));
}

/// One change of visibility: `set_visibility` (as `Show`, with the flag) or
/// `clear_visibility`.
pub enum VisibilityChange {
    Show(ActionContextView, bool),
    Clear(ActionContextView),
}

/// The instance a change is about.
pub open spec fn change_target(change: VisibilityChange) -> ActionContextView {
    match change {
        VisibilityChange::Show(c, _) => c,
        VisibilityChange::Clear(c) => c,
    }
}

/// Whether an instance is visible right after a change about it.
pub open spec fn visible_after(change: VisibilityChange) -> bool {
    match change {
        VisibilityChange::Show(_, v) => v,
        VisibilityChange::Clear(_) => true,
    }
}

/// The flags after one change, as `set_visibility` and `clear_visibility`
/// leave them.
pub open spec fn apply_change(flags: Map<ActionContextView, bool>, change: VisibilityChange) -> Map<ActionContextView, bool> {
    match change {
        VisibilityChange::Show(c, v) => flags.insert(c, v),
        VisibilityChange::Clear(c) => flags.remove(c),
    }
}

/// The flags after a run of changes, in order.
pub open spec fn apply_changes(flags: Map<ActionContextView, bool>, changes: Seq<VisibilityChange>) -> Map<ActionContextView, bool>
    decreases changes.len(),
{
    if changes.len() == 0 {
        flags
    } else {
        apply_change(apply_changes(flags, changes.drop_last()), changes.last())
    }
}

/// Whatever changes came before, an instance is as the last change about
/// it left it: hidden or shown as last set, visible once cleared; changes
/// about other instances leave it alone, and with no change about it, it is
/// as it was (visible in a new store).
pub proof fn law_visibility_follows_last_change(
    flags: Map<ActionContextView, bool>,
    changes: Seq<VisibilityChange>,
    context: ActionContextView,
)
    ensures
        (forall|i: int| 0 <= i < changes.len() ==> change_target(#[trigger] changes[i]) != context) ==> visible_in(
            apply_changes(flags, changes),
            context,
        ) == visible_in(flags, context),
        forall|i: int|
            0 <= i < changes.len() && change_target(#[trigger] changes[i]) == context && (forall|j: int|
                i < j < changes.len() ==> change_target(changes[j]) != context) ==> visible_in(
                apply_changes(flags, changes),
                context,
            ) == visible_after(changes[i]),
    decreases changes.len(),
{
    if changes.len() > 0 {
        let rest = changes.drop_last();
        let last = changes.last();
        let n = changes.len() - 1;
        law_visibility_follows_last_change(flags, rest, context);
        let before = apply_changes(flags, rest);
        assert(apply_changes(flags, changes) == apply_change(before, last));
        if change_target(last) == context {
            assert forall|i: int|
                0 <= i < changes.len() && change_target(#[trigger] changes[i]) == context && (forall|j: int|
                    i < j < changes.len() ==> change_target(changes[j]) != context) implies visible_in(
                apply_changes(flags, changes),
                context,
            ) == visible_after(changes[i]) by {
                if i < n {
                    assert(change_target(changes[n]) != context);
                }
            }
        } else {
            assert(visible_in(apply_change(before, last), context) == visible_in(before, context));
            assert forall|i: int|
                0 <= i < changes.len() && change_target(#[trigger] changes[i]) == context && (forall|j: int|
                    i < j < changes.len() ==> change_target(changes[j]) != context) implies visible_in(
                apply_changes(flags, changes),
                context,
            ) == visible_after(changes[i]) by {
                assert(i < n);
                assert(rest[i] == changes[i]);
                assert forall|j: int| i < j < rest.len() implies change_target(rest[j]) != context by {
                    assert(rest[j] == changes[j]);
                }
            }
            if forall|i: int| 0 <= i < changes.len() ==> change_target(#[trigger] changes[i]) != context {
                assert forall|i: int| 0 <= i < rest.len() implies change_target(#[trigger] rest[i]) != context by {
                    assert(rest[i] == changes[i]);
                }
            }
        }
    }
}

/// A stack shows the current state of its first visible child: when child
/// `i` is visible, every earlier child is hidden, and the child's current
/// state exists, the stack shows exactly that state, and syncing it leaves
/// that one state as its only, current, state.
pub proof fn law_stack_shows_first_visible_child_state(
    flags: Map<ActionContextView, bool>,
    instance: ActionInstanceView,
    i: int,
)
    requires
        instance.children is Some,
        0 <= i < instance.children->0.len(),
        visible_in(flags, instance.children->0[i].context),
        forall|j: int| 0 <= j < i ==> !visible_in(flags, #[trigger] instance.children->0[j].context),
        instance.children->0[i].current_state < instance.children->0[i].states.len(),
    ensures
        effective_state_of(flags, instance) == instance.children->0[i].states[instance.children->0[i].current_state as int],
        synced_parent(flags, instance).states == seq![
            instance.children->0[i].states[instance.children->0[i].current_state as int],
        ],
        synced_parent(flags, instance).current_state == 0,
        synced_parent(flags, instance).children == instance.children,
{
    lemma_first_visible(flags, instance, i);
}

/// A stack with no visible child (or none at all) shows a blank, hidden,
/// untitled state.
pub proof fn law_stack_without_visible_child_is_blank(flags: Map<ActionContextView, bool>, instance: ActionInstanceView)
    requires
        instance.children matches Some(cs) ==> forall|j: int| 0 <= j < cs.len() ==> !visible_in(flags, #[trigger] cs[j].context),
    ensures
        effective_state_of(flags, instance) == (ActionStateView {
            image: BLANK_IMAGE_DATA_URL@,
            text: Seq::empty(),
            show: false,
        }),
{
    if instance.children is Some {
        lemma_none_visible(flags, instance);
    }
}

} // verus!
