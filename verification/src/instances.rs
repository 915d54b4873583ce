//! Placing, moving, reordering and removing action instances in device slots.
//! Each function decides and performs the change on the slot it is handed and
//! reports what the caller must announce (appear/disappear events, state
//! updates); storage, plugin messages and file copies stay with the caller.

use vstd::prelude::*;
use crate::model::{
    duplicate_instances, instances_view, lemma_instances_view, states_view, Action, ActionContext,
    ActionContextView, ActionInstance, ActionInstanceView, ActionState, ActionStateView, ActionView, Context,
    ContextView,
};
use crate::stack::{is_visible, opt_view, VisibilityStore};
use crate::text::str_eq;

verus! {

pub const MULTI_ACTION_UUID: &'static str = "opendeck.multiaction";
pub const TOGGLE_ACTION_UUID: &'static str = "opendeck.toggleaction";
pub const TOGGLE_ACTION_IMAGE: &'static str = "opendeck/toggle-action.png";

/// Actions that hold child instances.
pub open spec fn is_container_uuid(uuid: Seq<char>) -> bool {
    uuid == "opendeck.multiaction"@ || uuid == "opendeck.toggleaction"@ || uuid == "opendeck.infobarstack"@
}

pub open spec fn with_context(instance: ActionInstanceView, context: ActionContextView) -> ActionInstanceView {
    ActionInstanceView { context, ..instance }
}

/// Children renumbered 1, 2, ... in slot `parent`.
pub open spec fn renumbered(parent: ContextView, children: Seq<ActionInstanceView>) -> Seq<ActionInstanceView> {
    Seq::new(children.len(), |i: int| with_context(children[i], parent.with_index((i + 1) as u16)))
}

fn is_container(uuid: &String) -> (r: bool)
    ensures
        r == is_container_uuid(uuid@),
{
    str_eq(uuid.as_str(), MULTI_ACTION_UUID) || str_eq(uuid.as_str(), TOGGLE_ACTION_UUID) || str_eq(
        uuid.as_str(),
        crate::stack::ACTION_UUID,
    )
}

/// Give the children of slot `parent_context` the indices 1, 2, ... in order.
pub fn renumber_children(parent_context: &Context, children: &mut Vec<ActionInstance>)
    requires
        old(children)@.len() <= 65535,
    ensures
        instances_view(final(children)@) == renumbered(parent_context@, instances_view(old(children)@)),
{
    let ghost before = instances_view(children@);
    proof {
        lemma_instances_view(children@);
    }
    let mut i: usize = 0;
    while i < children.len()
        invariant
            i <= children.len() <= 65535,
            before.len() == children@.len(),
            forall|k: int| 0 <= k < i ==> #[trigger] children@[k]@ == with_context(before[k], parent_context@.with_index((k + 1) as u16)),
            forall|k: int| i <= k < children@.len() ==> #[trigger] children@[k]@ == before[k],
        decreases children.len() - i,
    {
        let index: u16 = (i as u16) + 1;
        let context = ActionContext::from_context(parent_context, index);
        let ghost prev = children@;
        children[i].context = context;
        proof {
            assert forall|k: int| 0 <= k < children@.len() && k != i implies children@[k] == prev[k] by {}
            assert(children@[i as int].children == prev[i as int].children);
            assert(children@[i as int]@ == with_context(prev[i as int]@, parent_context@.with_index(index)));
            assert(index == ((i + 1) as u16));
        }
        i = i + 1;
    }
    proof {
        lemma_instances_view(children@);
        assert(instances_view(children@) =~= renumbered(parent_context@, before));
    }
}

/// The outcome of placing an action.
pub struct CreatedInstance {
    /// The instance as it was placed.
    pub instance: ActionInstance,
    /// A toggle action that gained a state for its new child; its state must
    /// be announced again.
    pub parent_to_update: Option<ActionContext>,
}

/// A new instance of `action` at `context`, in its first state, with empty
/// settings.
pub open spec fn fresh_instance(
    action: ActionView,
    context: ActionContextView,
    children: Option<Seq<ActionInstanceView>>,
) -> ActionInstanceView {
    ActionInstanceView { action, context, states: action.states, current_state: 0, settings: "{}"@, children }
}

/// The state a toggle action gains for each child beyond its states.
pub open spec fn toggle_state() -> ActionStateView {
    ActionStateView { image: "opendeck/toggle-action.png"@, text: Seq::empty(), show: true }
}

pub open spec fn children_or_empty(p: ActionInstanceView) -> Seq<ActionInstanceView> {
    if p.children is Some { p.children->0 } else { Seq::empty() }
}

/// The index a new child takes: one past the last child's, or 1.
pub open spec fn next_child_index(children: Seq<ActionInstanceView>) -> u16 {
    if children.len() == 0 { 1 } else { (children.last().context.index + 1) as u16 }
}

/// Whether an instance in a slot takes a new action as a child.
pub open spec fn accepts_children(p: ActionInstanceView) -> bool {
    p.children is Some || is_container_uuid(p.action.uuid)
}

/// The child that placing `action` on an occupied slot creates.
pub open spec fn created_child(p: ActionInstanceView, action: ActionView, context: ContextView) -> ActionInstanceView {
    fresh_instance(action, context.with_index(next_child_index(children_or_empty(p))), None)
}

pub open spec fn children_after_create(p: ActionInstanceView, action: ActionView, context: ContextView) -> Seq<ActionInstanceView> {
    renumbered(context, children_or_empty(p).push(created_child(p, action, context)))
}

/// Whether a toggle action gains a state when a child is added.
pub open spec fn toggle_grows(p: ActionInstanceView, action: ActionView, context: ContextView) -> bool {
    p.action.uuid == "opendeck.toggleaction"@ && p.states.len() < children_after_create(p, action, context).len()
}

/// The instance in an occupied slot after a child is added to it.
pub open spec fn parent_after_create(p: ActionInstanceView, action: ActionView, context: ContextView) -> ActionInstanceView {
    ActionInstanceView {
        children: Some(children_after_create(p, action, context)),
        states: if toggle_grows(p, action, context) { p.states.push(toggle_state()) } else { p.states },
        ..p
    }
}

/// Whether an occupied slot can number one more child.
pub open spec fn room_for_child(p: ActionInstanceView) -> bool {
    let cs = children_or_empty(p);
    cs.len() < 65535 && (cs.len() > 0 ==> cs.last().context.index < 65535)
}

fn controllers_contain(controllers: &Vec<String>, controller: &String) -> (r: bool)
    ensures
        r == crate::model::strings_view(controllers@).contains(controller@),
{
    let ghost views = crate::model::strings_view(controllers@);
    let mut i: usize = 0;
    while i < controllers.len()
        invariant
            i <= controllers.len(),
            views == crate::model::strings_view(controllers@),
            forall|j: int| 0 <= j < i ==> #[trigger] views[j] != controller@,
        decreases controllers.len() - i,
    {
        if controllers[i] == *controller {
            assert(views[i as int] == controller@);
            return true;
        }
        i = i + 1;
    }
    false
}

fn toggle_action_state() -> (r: ActionState)
    ensures
        r@ == toggle_state(),
{
    ActionState { image: TOGGLE_ACTION_IMAGE.to_owned(), text: String::new(), show: true }
}

/// Place `action` at `context`.  An empty slot gets a new instance (with an
/// empty child list for multi-actions, toggles and stacks); a slot holding
/// such a container gets the action as its last child, the children are
/// renumbered, and a toggle gains a state when it has fewer states than
/// children.  An action that does not support the controller, or a slot
/// holding an action that takes no children, is left alone.
pub fn create_instance(slot: &mut Option<ActionInstance>, action: Action, context: &Context) -> (r: Option<CreatedInstance>)
    requires
        action@.controllers.contains(context@.controller) ==> (*old(slot) matches Some(p) ==> (accepts_children(p@)
            ==> room_for_child(p@))),
    ensures
        !action@.controllers.contains(context@.controller) ==> r is None && opt_view(*final(slot)) == opt_view(*old(slot)),
        action@.controllers.contains(context@.controller) ==> match *old(slot) {
            None => {
                &&& r matches Some(c) && c.parent_to_update is None && c.instance@ == fresh_instance(
                    action@,
                    context@.with_index(0),
                    if is_container_uuid(action@.uuid) { Some(Seq::empty()) } else { None },
                )
                &&& opt_view(*final(slot)) == Some(r->0.instance@)
            },
            Some(p) => if !accepts_children(p@) {
                r is None && opt_view(*final(slot)) == opt_view(*old(slot))
            } else {
                &&& r matches Some(c) && c.instance@ == created_child(p@, action@, context@)
                &&& r->0.parent_to_update is Some <==> toggle_grows(p@, action@, context@)
                &&& r->0.parent_to_update matches Some(pc) ==> pc@ == p@.context
                &&& opt_view(*final(slot)) == Some(parent_after_create(p@, action@, context@))
            },
        },
{
    if !controllers_contain(&action.controllers, &context.controller) {
        return None;
    }
    let taken = slot.take();
    match taken {
        None => {
            let children = if is_container(&action.uuid) { Some(Vec::new()) } else { None };
            let states = crate::model::duplicate_states(&action.states);
            let instance = ActionInstance {
                action,
                context: ActionContext::from_context(context, 0),
                states,
                current_state: 0,
                settings: "{}".to_owned(),
                children,
            };
            let copy = instance.duplicate();
            proof {
                if is_container_uuid(action@.uuid) {
                    assert(instances_view(Seq::<ActionInstance>::empty()) =~= Seq::<ActionInstanceView>::empty());
                }
            }
            *slot = Some(instance);
            Some(CreatedInstance { instance: copy, parent_to_update: None })
        },
        Some(mut parent) => {
            let ghost p = parent@;
            if parent.children.is_none() && is_container(&parent.action.uuid) {
                parent.children = Some(Vec::new());
                proof {
                    assert(instances_view(Seq::<ActionInstance>::empty()) =~= Seq::<ActionInstanceView>::empty());
                    assert(parent@ == ActionInstanceView { children: Some(Seq::<ActionInstanceView>::empty()), ..p });
                }
            }
            let mut children = match parent.children.take() {
                Some(c) => c,
                None => {
                    *slot = Some(parent);
                    return None;
                },
            };
            let ghost cs = children_or_empty(p);
            proof {
                lemma_instances_view(children@);
                assert(instances_view(children@) == cs);
            }
            let index: u16 = if children.len() == 0 {
                1
            } else {
                proof {
                    assert(children@.last()@ == cs.last());
                }
                children[children.len() - 1].context.index + 1
            };
            let states = crate::model::duplicate_states(&action.states);
            let instance = ActionInstance {
                action,
                context: ActionContext::from_context(context, index),
                states,
                current_state: 0,
                settings: "{}".to_owned(),
                children: None,
            };
            let copy = instance.duplicate();
            let ghost inst = instance@;
            proof {
                assert(index == next_child_index(cs));
                assert(inst == created_child(p, action@, context@));
            }
            children.push(instance);
            proof {
                lemma_instances_view(children@);
                assert(instances_view(children@) =~= cs.push(inst));
            }
            renumber_children(context, &mut children);
            proof {
                lemma_instances_view(children@);
            }
            let grow = str_eq(parent.action.uuid.as_str(), TOGGLE_ACTION_UUID) && parent.states.len() < children.len();
            if grow {
                parent.states.push(toggle_action_state());
                proof {
                    assert(states_view(parent.states@) =~= p.states.push(toggle_state()));
                }
            }
            parent.children = Some(children);
            let parent_to_update = if grow { Some(parent.context.duplicate()) } else { None };
            proof {
                let want = parent_after_create(p, action@, context@);
                assert(instances_view(children@) == children_after_create(p, action@, context@));
                assert(children@.len() == children_after_create(p, action@, context@).len());
                assert(grow == toggle_grows(p, action@, context@));
                assert(parent@.children == want.children);
                assert(parent@.states == want.states);
                assert(parent@.action == want.action);
                assert(parent@.context == want.context);
                assert(parent@ == want);
            }
            *slot = Some(parent);
            Some(CreatedInstance { instance: copy, parent_to_update })
        },
    }
}

/// The outcome of reordering the children of a slot.
pub struct ReorderedChildren {
    /// The instance of the slot after the change.
    pub parent: ActionInstance,
    /// Its children before the change, to disappear.
    pub old_children: Vec<ActionInstance>,
    /// Its children after the change, to appear.
    pub new_children: Vec<ActionInstance>,
}

/// `cs` with the child at `from` moved to `to`.
pub open spec fn moved_child(cs: Seq<ActionInstanceView>, from: int, to: int) -> Seq<ActionInstanceView> {
    cs.remove(from).insert(to, cs[from])
}

/// Move the child at `from` to `to` among the children of the instance in
/// `slot` and renumber them.  An empty slot, an instance without children or
/// an index past the children is left alone.
pub fn reorder_child_instance(slot: &mut Option<ActionInstance>, context: &Context, from: usize, to: usize) -> (r: Option<ReorderedChildren>)
    requires
        *old(slot) matches Some(p) ==> (p@.children matches Some(cs) ==> (from < cs.len() && to < cs.len()
            ==> cs.len() <= 65535)),
    ensures
        match *old(slot) {
            Some(p) => match p@.children {
                Some(cs) => if from < cs.len() && to < cs.len() {
                    let ncs = renumbered(context@, moved_child(cs, from as int, to as int));
                    &&& r matches Some(o) && instances_view(o.old_children@) == cs
                    &&& instances_view(r->0.new_children@) == ncs
                    &&& r->0.parent@ == (ActionInstanceView { children: Some(ncs), ..p@ })
                    &&& opt_view(*final(slot)) == Some(r->0.parent@)
                } else {
                    r is None && opt_view(*final(slot)) == opt_view(*old(slot))
                },
                None => r is None && opt_view(*final(slot)) == opt_view(*old(slot)),
            },
            None => r is None && opt_view(*final(slot)) == opt_view(*old(slot)),
        },
{
    let mut parent = match slot.take() {
        Some(p) => p,
        None => return None,
    };
    let ghost p = parent@;
    let mut children = match parent.children.take() {
        Some(c) => c,
        None => {
            *slot = Some(parent);
            return None;
        },
    };
    proof {
        lemma_instances_view(children@);
    }
    if from >= children.len() || to >= children.len() {
        parent.children = Some(children);
        *slot = Some(parent);
        return None;
    }
    let old_children = duplicate_instances(&children);
    let ghost before = children@;
    let child = children.remove(from);
    children.insert(to, child);
    proof {
        assert(children@ =~= before.remove(from as int).insert(to as int, before[from as int]));
        lemma_instances_view(before.remove(from as int));
        lemma_instances_view(children@);
        assert(instances_view(children@) =~= moved_child(p.children->0, from as int, to as int));
    }
    renumber_children(context, &mut children);
    let new_children = duplicate_instances(&children);
    parent.children = Some(children);
    let copy = parent.duplicate();
    *slot = Some(parent);
    Some(ReorderedChildren { parent: copy, old_children, new_children })
}

/// A child whose address changed when an earlier sibling was removed: it
/// disappears under its old address and appears under the new one.
pub struct ShiftedChild {
    pub before: ActionInstance,
    pub after: ActionInstance,
}

/// What removing an instance did.
pub enum Removal {
    /// The slot was empty.
    Empty,
    /// The instance filling the slot is gone, with its children.
    Slot { instance: ActionInstance },
    /// The address named a child of the slot.
    Child {
        /// The child that was removed, if one had the address.
        removed: Option<ActionInstance>,
        /// Later children whose address changed.
        shifted: Vec<ShiftedChild>,
        /// A toggle action whose states shrank, to announce again.
        toggle_update: Option<ActionContext>,
    },
}

/// The index of the first child with address `context`.
pub open spec fn child_index(cs: Seq<ActionInstanceView>, context: ActionContextView) -> Option<int> {
    if exists|i: int| 0 <= i < cs.len() && #[trigger] cs[i].context == context {
        Some(choose|i: int|
            0 <= i < cs.len() && #[trigger] cs[i].context == context && (forall|j: int|
                0 <= j < i ==> #[trigger] cs[j].context != context))
    } else {
        None
    }
}

/// The pairs (olds[k], news[k]), k < n, whose addresses differ.
pub open spec fn changed_pairs(olds: Seq<ActionInstanceView>, news: Seq<ActionInstanceView>, n: nat) -> Seq<(ActionInstanceView, ActionInstanceView)>
    decreases n,
{
    if n == 0 {
        Seq::empty()
    } else {
        let before = changed_pairs(olds, news, (n - 1) as nat);
        if olds[n - 1].context != news[n - 1].context {
            before.push((olds[n - 1], news[n - 1]))
        } else {
            before
        }
    }
}

pub open spec fn children_after_removal(cs: Seq<ActionInstanceView>, context: ActionContextView) -> Seq<ActionInstanceView> {
    match child_index(cs, context) {
        Some(i) => renumbered(context.slot(), cs.remove(i)),
        None => cs,
    }
}

/// The children that follow a removed one and changed address.
pub open spec fn shifted_after_removal(cs: Seq<ActionInstanceView>, context: ActionContextView) -> Seq<(ActionInstanceView, ActionInstanceView)> {
    match child_index(cs, context) {
        Some(i) => {
            let news = children_after_removal(cs, context);
            changed_pairs(cs.skip(i + 1), news.skip(i), (news.len() - i) as nat)
        },
        None => Seq::empty(),
    }
}

/// The instance of the slot after a child address was removed from it: a
/// toggle action keeps its current state within its children and drops its
/// last state while children remain.
pub open spec fn parent_after_removal(p: ActionInstanceView, context: ActionContextView) -> ActionInstanceView {
    let cs = children_after_removal(p.children->0, context);
    if p.action.uuid == "opendeck.toggleaction"@ {
        ActionInstanceView {
            children: Some(cs),
            current_state: if p.current_state >= cs.len() {
                if cs.len() == 0 { 0 } else { (cs.len() - 1) as u16 }
            } else {
                p.current_state
            },
            states: if cs.len() > 0 && p.states.len() > 0 { p.states.drop_last() } else { p.states },
            ..p
        }
    } else {
        ActionInstanceView { children: Some(cs), ..p }
    }
}

proof fn lemma_first_child(cs: Seq<ActionInstanceView>, context: ActionContextView, i: int)
    requires
        0 <= i < cs.len(),
        cs[i].context == context,
        forall|j: int| 0 <= j < i ==> #[trigger] cs[j].context != context,
    ensures
        child_index(cs, context) == Some(i),
{
    let k = choose|k: int|
        0 <= k < cs.len() && #[trigger] cs[k].context == context && (forall|j: int|
            0 <= j < k ==> #[trigger] cs[j].context != context);
    if k < i {
        assert(cs[k].context != context);
    } else if k > i {
        assert(cs[i].context != context);
    }
}

/// Remove the instance at `context` from `slot`.  When it fills the slot the
/// slot is emptied; otherwise the first child with that address is removed,
/// the rest are renumbered, and a toggle action adjusts its states.
pub fn remove_instance(slot: &mut Option<ActionInstance>, context: &ActionContext) -> (r: Removal)
    requires
        *old(slot) matches Some(p) ==> (p@.context != context@ ==> (p@.children matches Some(cs)
            && (child_index(cs, context@) is Some ==> cs.len() <= 65536))),
    ensures
        match *old(slot) {
            None => r is Empty && opt_view(*final(slot)) == opt_view(*old(slot)),
            Some(p) => if p@.context == context@ {
                r matches Removal::Slot { instance } && instance@ == p@ && *final(slot) is None
            } else {
                let cs = p@.children->0;
                let np = parent_after_removal(p@, context@);
                &&& r matches Removal::Child { removed, shifted, toggle_update }
                &&& opt_view(removed) == (match child_index(cs, context@) {
                    Some(i) => Some(cs[i]),
                    None => None,
                })
                &&& shifted@.map_values(|c: ShiftedChild| (c.before@, c.after@)) == shifted_after_removal(cs, context@)
                &&& toggle_update is Some <==> (p@.action.uuid == "opendeck.toggleaction"@ && np.children->0.len() > 0)
                &&& toggle_update matches Some(t) ==> t@ == p@.context
                &&& opt_view(*final(slot)) == Some(np)
            },
        },
{
    let mut instance = match slot.take() {
        Some(p) => p,
        None => return Removal::Empty,
    };
    let ghost p = instance@;
    if instance.context.same_as(context) {
        return Removal::Slot { instance };
    }
    let mut children = match instance.children.take() {
        Some(c) => c,
        None => {
            proof {
                assert(false);
            }
            *slot = Some(instance);
            return Removal::Empty;
        },
    };
    let ghost cs = p.children->0;
    proof {
        lemma_instances_view(children@);
    }
    let old_children = duplicate_instances(&children);
    let mut i: usize = 0;
    while i < children.len() && !children[i].context.same_as(context)
        invariant
            i <= children.len(),
            cs == instances_view(children@),
            cs.len() == children@.len(),
            forall|k: int| 0 <= k < children@.len() ==> #[trigger] cs[k] == children@[k]@,
            forall|j: int| 0 <= j < i ==> #[trigger] cs[j].context != context@,
        decreases children.len() - i,
    {
        i = i + 1;
    }
    let mut removed: Option<ActionInstance> = None;
    let mut shifted: Vec<ShiftedChild> = Vec::new();
    if i < children.len() {
        proof {
            lemma_first_child(cs, context@, i as int);
        }
        let ghost before = children@;
        let gone = children.remove(i);
        proof {
            assert(children@ =~= before.remove(i as int));
            lemma_instances_view(children@);
            assert(instances_view(children@) =~= cs.remove(i as int));
        }
        renumber_children(&context.slot(), &mut children);
        removed = Some(gone);
        proof {
            lemma_instances_view(children@);
            lemma_instances_view(old_children@);
        }
        let ghost olds = cs.skip(i + 1);
        let ghost news = instances_view(children@).skip(i as int);
        let n = children.len() - i;
        let old_len = old_children.len();
        let mut k: usize = 0;
        while k < n
            invariant
                k <= n == children@.len() - i,
                i < old_children@.len() == children@.len() + 1,
                i + k <= children@.len(),
                old_len == old_children@.len(),
                instances_view(children@).len() == children@.len(),
                cs.len() == old_children@.len(),
                instances_view(old_children@) == cs,
                olds == cs.skip(i + 1),
                news == instances_view(children@).skip(i as int),
                forall|m: int| 0 <= m < children@.len() ==> #[trigger] instances_view(children@)[m] == children@[m]@,
                forall|m: int| 0 <= m < old_children@.len() ==> #[trigger] cs[m] == old_children@[m]@,
                shifted@.map_values(|c: ShiftedChild| (c.before@, c.after@)) == changed_pairs(olds, news, k as nat),
            decreases n - k,
        {
            let a = &old_children[i + 1 + k];
            let b = &children[i + k];
            proof {
                assert(olds[k as int] == a@);
                assert(news[k as int] == b@);
            }
            let ghost prev = shifted@;
            if !a.context.same_as(&b.context) {
                shifted.push(ShiftedChild { before: a.duplicate(), after: b.duplicate() });
                proof {
                    assert(shifted@.map_values(|c: ShiftedChild| (c.before@, c.after@)) =~= prev.map_values(
                        |c: ShiftedChild| (c.before@, c.after@),
                    ).push((olds[k as int], news[k as int])));
                }
            }
            k = k + 1;
        }
    } else {
        proof {
            assert(!(exists|j: int| 0 <= j < cs.len() && #[trigger] cs[j].context == context@));
            assert(shifted@.map_values(|c: ShiftedChild| (c.before@, c.after@)) =~= Seq::<(ActionInstanceView, ActionInstanceView)>::empty());
        }
    }
    proof {
        lemma_instances_view(children@);
        assert(instances_view(children@) == children_after_removal(cs, context@));
    }
    let mut toggle_update: Option<ActionContext> = None;
    if str_eq(instance.action.uuid.as_str(), TOGGLE_ACTION_UUID) {
        if instance.current_state as usize >= children.len() {
            instance.current_state = if children.len() == 0 { 0 } else { (children.len() - 1) as u16 };
        }
        if children.len() > 0 {
            let ghost before_states = instance.states@;
            instance.states.pop();
            proof {
                if before_states.len() > 0 {
                    assert(states_view(instance.states@) =~= states_view(before_states).drop_last());
                }
            }
            toggle_update = Some(instance.context.duplicate());
        }
    }
    instance.children = Some(children);
    proof {
        assert(instance@ == parent_after_removal(p, context@));
    }
    *slot = Some(instance);
    Removal::Child { removed, shifted, toggle_update }
}

/// The states of a child moved to another slot: each takes the image its
/// action declares for it, or the action icon when that image is empty.
pub open spec fn reset_images(states: Seq<ActionStateView>, action: ActionView) -> Seq<ActionStateView> {
    Seq::new(
        states.len(),
        |j: int|
            ActionStateView {
                image: if action.states[j].image.len() > 0 { action.states[j].image } else { action.icon },
                ..states[j]
            },
    )
}

pub open spec fn moved_children(cs: Seq<ActionInstanceView>, destination: ContextView) -> Seq<ActionInstanceView> {
    Seq::new(
        cs.len(),
        |i: int|
            ActionInstanceView {
                context: destination.with_index((i + 1) as u16),
                states: reset_images(cs[i].states, cs[i].action),
                ..cs[i]
            },
    )
}

/// An instance moved to slot `destination`, with its children renumbered
/// there and their images reset.
pub open spec fn moved_instance(src: ActionInstanceView, destination: ContextView) -> ActionInstanceView {
    ActionInstanceView {
        context: destination.with_index(0),
        children: match src.children {
            Some(cs) => Some(moved_children(cs, destination)),
            None => None,
        },
        ..src
    }
}

/// Whether the children of an instance can be moved: they fit the indices
/// and none has more states than its action declares.
pub open spec fn movable(src: ActionInstanceView) -> bool {
    src.children matches Some(cs) ==> (cs.len() <= 65535 && forall|i: int|
        0 <= i < cs.len() ==> #[trigger] cs[i].states.len() <= cs[i].action.states.len())
}

fn reset_child(child: &mut ActionInstance, destination: &Context, index: u16)
    requires
        old(child)@.states.len() <= old(child)@.action.states.len(),
    ensures
        final(child)@ == (ActionInstanceView {
            context: destination@.with_index(index),
            states: reset_images(old(child)@.states, old(child)@.action),
            ..old(child)@
        }),
{
    child.context = ActionContext::from_context(destination, index);
    let ghost before = child.states@;
    let mut j: usize = 0;
    while j < child.states.len()
        invariant
            j <= child.states@.len() == before.len(),
            before.len() <= child.action.states@.len(),
            child.context@ == destination@.with_index(index),
            child.action == old(child).action,
            child.children == old(child).children,
            child.settings == old(child).settings,
            child.current_state == old(child).current_state,
            before == old(child).states@,
            forall|m: int| 0 <= m < j ==> #[trigger] child.states@[m]@ == reset_images(states_view(before), child.action@)[m],
            forall|m: int| j <= m < before.len() ==> #[trigger] child.states@[m] == before[m],
        decreases before.len() - j,
    {
        let image = if child.action.states[j].image.unicode_len() > 0 {
            child.action.states[j].image.clone()
        } else {
            child.action.icon.clone()
        };
        proof {
            assert(child.action@.states[j as int] == child.action.states@[j as int]@);
        }
        let ghost prev = child.states@;
        child.states[j].image = image;
        proof {
            assert forall|m: int| 0 <= m < child.states@.len() && m != j implies child.states@[m] == prev[m] by {}
        }
        j = j + 1;
    }
    proof {
        assert(states_view(child.states@) =~= reset_images(states_view(before), child.action@));
    }
}

/// Copy the instance of `source_slot` to slot `destination`, when both slots
/// are of the same controller, the destination is free and the source holds
/// an instance.  The copy takes index 0 there; its children are renumbered
/// and their images reset to their action's.  Copying image files, rewriting
/// image paths, and emptying the source unless it is retained stay with the
/// caller.
pub fn move_instance(source: &Context, destination: &Context, source_slot: &Option<ActionInstance>, destination_taken: bool) -> (r: Option<ActionInstance>)
    requires
        source@.controller == destination@.controller && !destination_taken ==> (*source_slot matches Some(src)
            ==> movable(src@)),
    ensures
        opt_view(r) == (if source@.controller != destination@.controller || destination_taken || source_slot.is_none() {
            None
        } else {
            Some(moved_instance(source_slot->0@, destination@))
        }),
{
    if source.controller != destination.controller || destination_taken {
        return None;
    }
    let src = match source_slot {
        Some(s) => s,
        None => return None,
    };
    let mut moved = src.duplicate();
    moved.context = ActionContext::from_context(destination, 0);
    let ghost base = moved@;
    let mut children = match moved.children.take() {
        Some(c) => c,
        None => {
            proof {
                assert(moved@ == moved_instance(src@, destination@));
            }
            return Some(moved);
        },
    };
    let ghost cs = src@.children->0;
    proof {
        lemma_instances_view(children@);
    }
    let mut i: usize = 0;
    while i < children.len()
        invariant
            i <= children.len() == cs.len() <= 65535,
            forall|k: int| 0 <= k < cs.len() ==> #[trigger] cs[k].states.len() <= cs[k].action.states.len(),
            forall|k: int| 0 <= k < i ==> #[trigger] children@[k]@ == moved_children(cs, destination@)[k],
            forall|k: int| i <= k < cs.len() ==> #[trigger] children@[k]@ == cs[k],
        decreases cs.len() - i,
    {
        let ghost prev = children@;
        reset_child(&mut children[i], destination, (i as u16) + 1);
        proof {
            assert forall|k: int| 0 <= k < children@.len() && k != i implies children@[k] == prev[k] by {}
            assert(((i as u16) + 1) as u16 == ((i + 1) as u16));
        }
        i = i + 1;
    }
    proof {
        lemma_instances_view(children@);
        assert(instances_view(children@) =~= moved_children(cs, destination@));
    }
    moved.children = Some(children);
    proof {
        assert(moved@ == moved_instance(src@, destination@));
    }
    Some(moved)
}

/// What `Path::strip_prefix` leaves of `path` after the directory `base`:
/// the remaining components, when `base` names leading components of `path`.
pub uninterp spec fn path_remainder(path: Seq<char>, base: Seq<char>) -> Option<Seq<char>>;

/// What `Path::join` gives for a directory and a relative path.
pub uninterp spec fn path_joined(dir: Seq<char>, rest: Seq<char>) -> Seq<char>;

/// `Path::strip_prefix` on text paths; the result is a function of the two
/// paths.
#[verifier::external_body]
fn strip_dir_prefix(path: &str, base: &str) -> (r: Option<String>)
    ensures
        match r {
            Some(v) => path_remainder(path@, base@) == Some(v@),
            None => path_remainder(path@, base@) is None,
        },
{
    match std::path::Path::new(path).strip_prefix(base) {
        Ok(rest) => Some(rest.to_string_lossy().into_owned()),
        Err(_) => None,
    }
}

/// `Path::join` on text paths; the result is a function of the two paths.
#[verifier::external_body]
fn join_dir(dir: &str, rest: &str) -> (r: String)
    ensures
        r@ == path_joined(dir@, rest@),
{
    std::path::Path::new(dir).join(rest).to_string_lossy().into_owned()
}

/// The image of a state after its instance's image folder moved from
/// `old_dir` to `new_dir`: a file inside the old folder is named inside the
/// new one; any other image is kept.
pub open spec fn rebased_image(image: Seq<char>, old_dir: Seq<char>, new_dir: Seq<char>) -> Seq<char> {
    match path_remainder(image, old_dir) {
        Some(rest) => path_joined(new_dir, rest),
        None => image,
    }
}

/// Point the state images that live in a moved instance's image folder at
/// the folder it was copied to.
pub fn rebase_image_paths(states: &mut Vec<ActionState>, old_dir: &str, new_dir: &str)
    ensures
        final(states)@.len() == old(states)@.len(),
        forall|i: int| 0 <= i < old(states)@.len() ==> (#[trigger] final(states)@[i])@ == (ActionStateView {
            image: rebased_image(old(states)@[i].image@, old_dir@, new_dir@),
            ..old(states)@[i]@
        }),
{
    let mut i: usize = 0;
    while i < states.len()
        invariant
            i <= states.len() == old(states)@.len(),
            forall|k: int| 0 <= k < i ==> (#[trigger] states@[k])@ == (ActionStateView {
                image: rebased_image(old(states)@[k].image@, old_dir@, new_dir@),
                ..old(states)@[k]@
            }),
            forall|k: int| i <= k < states@.len() ==> #[trigger] states@[k] == old(states)@[k],
        decreases states.len() - i,
    {
        match strip_dir_prefix(states[i].image.as_str(), old_dir) {
            Some(rest) => {
                let image = join_dir(new_dir, rest.as_str());
                let ghost prev = states@;
                states[i].image = image;
                proof {
                    assert forall|k: int| 0 <= k < states@.len() && k != i implies states@[k] == prev[k] by {}
                }
            },
            None => {},
        }
        i = i + 1;
    }
}

/// The instance that receives a key press on an infobar slot: the active
/// child of a stack, or the instance itself.
pub fn infobar_key_target<'a>(store: &VisibilityStore, instance: &'a ActionInstance) -> (r: Option<&'a ActionInstance>)
    ensures
        crate::stack::is_stack_action(instance@) ==> match r {
            Some(c) => crate::stack::active_child_of(store.view(), instance@) == Some(c@),
            None => crate::stack::active_child_of(store.view(), instance@) is None,
        },
        !crate::stack::is_stack_action(instance@) ==> (r matches Some(c) && c@ == instance@),
{
    if crate::stack::is_infobar_stack(instance) {
        crate::stack::active_child(store, instance)
    } else {
        Some(instance)
    }
}

/// The instances that appear when an instance appears with its tree: the
/// children of a stack (which itself never appears), or the instance.
pub fn appear_targets(instance: &ActionInstance) -> (r: Vec<ActionInstance>)
    ensures
        instances_view(r@) == (if crate::stack::is_stack_action(instance@) {
            children_or_empty(instance@)
        } else {
            seq![instance@]
        }),
{
    if crate::stack::is_infobar_stack(instance) {
        match &instance.children {
            Some(cs) => duplicate_instances(cs),
            None => {
                let r: Vec<ActionInstance> = Vec::new();
                assert(instances_view(r@) =~= Seq::<ActionInstanceView>::empty());
                r
            },
        }
    } else {
        let mut r: Vec<ActionInstance> = Vec::new();
        r.push(instance.duplicate());
        proof {
            lemma_instances_view(r@);
            assert(instances_view(r@) =~= seq![instance@]);
        }
        r
    }
}

/// One disappearance to announce.
pub struct Disappearance {
    pub instance: ActionInstance,
    /// Whether the device slot is cleared with it.
    pub clear_on_device: bool,
}

/// What an instance disappearing with its tree announces.
pub struct DisappearPlan {
    pub disappearances: Vec<Disappearance>,
    /// Whether the stack's own slot is cleared after its children went.
    pub clear_stack_slot: bool,
}

/// A stack's children disappear without clearing the device, then the
/// stack slot is cleared if asked; any other instance disappears itself.
pub fn disappear_targets(instance: &ActionInstance, clear_on_device: bool) -> (r: DisappearPlan)
    ensures
        crate::stack::is_stack_action(instance@) ==> {
            &&& r.clear_stack_slot == clear_on_device
            &&& r.disappearances@.map_values(|d: Disappearance| d.instance@) == children_or_empty(instance@)
            &&& forall|i: int| 0 <= i < r.disappearances@.len() ==> !(#[trigger] r.disappearances@[i]).clear_on_device
        },
        !crate::stack::is_stack_action(instance@) ==> {
            &&& !r.clear_stack_slot
            &&& r.disappearances@.len() == 1
            &&& r.disappearances@[0].instance@ == instance@
            &&& r.disappearances@[0].clear_on_device == clear_on_device
        },
{
    let mut disappearances: Vec<Disappearance> = Vec::new();
    if crate::stack::is_infobar_stack(instance) {
        match &instance.children {
            Some(cs) => {
                proof {
                    lemma_instances_view(cs@);
                }
                let mut i: usize = 0;
                while i < cs.len()
                    invariant
                        i <= cs.len(),
                        instance@.children == Some(instances_view(cs@)),
                        instances_view(cs@).len() == cs@.len(),
                        forall|k: int| 0 <= k < cs@.len() ==> #[trigger] instances_view(cs@)[k] == cs@[k]@,
                        disappearances@.map_values(|d: Disappearance| d.instance@) == instances_view(cs@).take(i as int),
                        forall|k: int| 0 <= k < disappearances@.len() ==> !(#[trigger] disappearances@[k]).clear_on_device,
                    decreases cs.len() - i,
                {
                    let ghost prev = disappearances@;
                    disappearances.push(Disappearance { instance: cs[i].duplicate(), clear_on_device: false });
                    proof {
                        assert(disappearances@.map_values(|d: Disappearance| d.instance@) =~= prev.map_values(
                            |d: Disappearance| d.instance@,
                        ).push(cs@[i as int]@));
                        assert(instances_view(cs@).take(i as int + 1) =~= instances_view(cs@).take(i as int).push(
                            cs@[i as int]@,
                        ));
                    }
                    i = i + 1;
                }
                proof {
                    assert(instances_view(cs@).take(cs@.len() as int) =~= instances_view(cs@));
                }
            },
            None => {
                assert(disappearances@.map_values(|d: Disappearance| d.instance@) =~= Seq::<ActionInstanceView>::empty());
            },
        }
        DisappearPlan { disappearances, clear_stack_slot: clear_on_device }
    } else {
        disappearances.push(Disappearance { instance: instance.duplicate(), clear_on_device });
        DisappearPlan { disappearances, clear_stack_slot: false }
    }
}

/// Renumbering children that are already numbered changes nothing.
pub proof fn law_renumbering_is_idempotent(parent: ContextView, children: Seq<ActionInstanceView>)
    ensures
        renumbered(parent, renumbered(parent, children)) == renumbered(parent, children),
{
    assert(renumbered(parent, renumbered(parent, children)) =~= renumbered(parent, children));
}

/// Placing an action on a container and then removing the child that this
/// created leaves the container with the children it had, numbered 1, 2, ...
pub proof fn law_remove_undoes_create(p: ActionInstanceView, action: ActionView, context: ContextView)
    requires
        children_or_empty(p).len() < 65535,
    ensures
        children_after_removal(
            children_after_create(p, action, context),
            context.with_index((children_or_empty(p).len() + 1) as u16),
        ) == renumbered(context, children_or_empty(p)),
{
    let cs = children_or_empty(p);
    let n = cs.len() as int;
    let grown = children_after_create(p, action, context);
    let target = context.with_index((n + 1) as u16);
    assert(grown.len() == n + 1);
    assert(grown[n].context == target);
    assert forall|j: int| 0 <= j < n implies #[trigger] grown[j].context != target by {
        assert(grown[j].context.index == (j + 1) as u16);
    }
    lemma_first_child(grown, target, n);
    assert(target.slot() == context);
    assert(grown.remove(n) =~= renumbered(context, cs));
    law_renumbering_is_idempotent(context, cs);
}

/// Moving an instance keeps everything it is but its address: its action,
/// states, current state and settings stay; it takes index 0 at the
/// destination; its children stay in order with their actions, settings,
/// current states and texts, renumbered 1, 2, ... at the destination, each
/// state's image reset to the one its action declares (the action icon when
/// that is empty).
pub proof fn law_move_keeps_the_instance(src: ActionInstanceView, destination: ContextView)
    ensures
        ({
            let m = moved_instance(src, destination);
            &&& m.action == src.action
            &&& m.states == src.states
            &&& m.current_state == src.current_state
            &&& m.settings == src.settings
            &&& m.context == (ActionContextView {
                device: destination.device,
                profile: destination.profile,
                controller: destination.controller,
                position: destination.position,
                index: 0,
            })
            &&& (m.children is Some <==> src.children is Some)
        }),
        src.children matches Some(cs) ==> {
            let ms = moved_instance(src, destination).children->0;
            &&& ms.len() == cs.len()
            &&& forall|i: int| 0 <= i < cs.len() ==> {
                let c = #[trigger] ms[i];
                &&& c.action == cs[i].action
                &&& c.settings == cs[i].settings
                &&& c.current_state == cs[i].current_state
                &&& c.children == cs[i].children
                &&& c.context == (ActionContextView {
                    device: destination.device,
                    profile: destination.profile,
                    controller: destination.controller,
                    position: destination.position,
                    index: (i + 1) as u16,
                })
                &&& c.states.len() == cs[i].states.len()
                &&& forall|j: int| 0 <= j < cs[i].states.len() ==> (#[trigger] c.states[j]) == (ActionStateView {
                    image: if cs[i].action.states[j].image.len() > 0 {
                        cs[i].action.states[j].image
                    } else {
                        cs[i].action.icon
                    },
                    text: cs[i].states[j].text,
                    show: cs[i].states[j].show,
                })
            }
        },
{
}

} // verus!
