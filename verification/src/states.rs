//! Plugin requests that change an instance's title, image or current state,
//! and what the device must draw afterwards.

use vstd::prelude::*;
use crate::model::{ActionContext, ActionInstance, ActionInstanceView, ActionStateView, states_view};
use crate::slots::{record_infobar_render, InfobarSlots};
use crate::text::{has_prefix, starts_with, str_eq, trim, trimmed};

verus! {

/// Set the title of one state, or of all states when `state` is `None`; no
/// title restores the action's own.
pub struct SetTitlePayload {
    pub title: Option<String>,
    pub state: Option<u16>,
}

/// Set the image of one state, or of all states when `state` is `None`; no
/// image (or a blank one) restores the action's own.
pub struct SetImagePayload {
    pub image: Option<String>,
    pub state: Option<u16>,
}

/// Make `state` the current state.
pub struct SetStatePayload {
    pub state: u16,
}

/// What a changed instance must show.
pub struct StateRender {
    pub context: ActionContext,
    pub text: String,
    pub image: String,
    pub is_infobar: bool,
}

/// A request named a state the instance does not have.
pub struct StateOutOfBounds {
    pub state: u16,
    pub count: usize,
}

/// An image given by a plugin, before it is stored.
pub enum ImagePayload {
    /// No image, or only white space: the action's own image is restored.
    Unset,
    /// A data URI, kept as given.
    Inline(String),
    /// A path relative to the plugin's folder (trimmed), to be converted to
    /// an icon by the caller.
    PluginFile(String),
}

pub open spec fn or_default(o: Option<Seq<char>>, d: Seq<char>) -> Seq<char> {
    match o {
        Some(v) => v,
        None => d,
    }
}

pub open spec fn opt_string(o: Option<String>) -> Option<Seq<char>> {
    match o {
        Some(s) => Some(s@),
        None => None,
    }
}

/// The states after a title request.
pub open spec fn titled_states(inst: ActionInstanceView, title: Option<Seq<char>>, state: Option<u16>) -> Seq<ActionStateView> {
    match state {
        Some(s) => inst.states.update(
            s as int,
            ActionStateView { text: or_default(title, inst.action.states[s as int].text), ..inst.states[s as int] },
        ),
        None => Seq::new(
            inst.states.len(),
            |i: int| ActionStateView { text: or_default(title, inst.action.states[i].text), ..inst.states[i] },
        ),
    }
}

/// The states after an image request.
pub open spec fn imaged_states(inst: ActionInstanceView, image: Option<Seq<char>>, state: Option<u16>) -> Seq<ActionStateView> {
    match state {
        Some(s) => inst.states.update(
            s as int,
            ActionStateView { image: or_default(image, inst.action.states[s as int].image), ..inst.states[s as int] },
        ),
        None => Seq::new(
            inst.states.len(),
            |i: int| ActionStateView { image: or_default(image, inst.action.states[i].image), ..inst.states[i] },
        ),
    }
}

/// `r` shows the current state of `inst`.
pub open spec fn renders(r: StateRender, inst: ActionInstanceView) -> bool {
    &&& r.context@ == inst.context
    &&& r.text@ == inst.states[inst.current_state as int].text
    &&& r.image@ == inst.states[inst.current_state as int].image
    &&& r.is_infobar == (inst.context.controller == "Infobar"@)
}

/// Whether a request for `state` can be applied: one state must exist in the
/// action for each state changed, and the current state must exist.
pub open spec fn request_applies(inst: ActionInstanceView, state: Option<u16>) -> bool {
    match state {
        Some(s) => s < inst.states.len() ==> s < inst.action.states.len() && inst.current_state < inst.states.len(),
        None => inst.states.len() <= inst.action.states.len() && inst.current_state < inst.states.len(),
    }
}

fn render(instance: &ActionInstance) -> (r: StateRender)
    requires
        instance.current_state < instance.states@.len(),
    ensures
        renders(r, instance@),
{
    let st = &instance.states[instance.current_state as usize];
    proof {
        assert(instance@.states[instance.current_state as int] == st@);
    }
    StateRender {
        context: instance.context.duplicate(),
        text: st.text.clone(),
        image: st.image.clone(),
        is_infobar: str_eq(instance.context.controller.as_str(), "Infobar"),
    }
}

/// Apply a title request.  A state past the instance's states is refused and
/// nothing changes.
pub fn set_title(instance: &mut ActionInstance, payload: &SetTitlePayload) -> (r: Result<StateRender, StateOutOfBounds>)
    requires
        request_applies(old(instance)@, payload.state),
    ensures
        match payload.state {
            Some(s) if s >= old(instance)@.states.len() => {
                &&& r matches Err(e) && e.state == s && e.count == old(instance)@.states.len()
                &&& final(instance)@ == old(instance)@
            },
            _ => {
                &&& final(instance)@ == (ActionInstanceView {
                    states: titled_states(old(instance)@, opt_string(payload.title), payload.state),
                    ..old(instance)@
                })
                &&& r matches Ok(rendered) && renders(rendered, final(instance)@)
            },
        },
{
    let ghost before = instance.states@;
    match payload.state {
        Some(s) => {
            if s as usize >= instance.states.len() {
                return Err(StateOutOfBounds { state: s, count: instance.states.len() });
            }
            let text = match &payload.title {
                Some(t) => t.clone(),
                None => instance.action.states[s as usize].text.clone(),
            };
            proof {
                assert(instance.action@.states[s as int] == instance.action.states@[s as int]@);
            }
            instance.states[s as usize].text = text;
            proof {
                assert(states_view(instance.states@) =~= titled_states(old(instance)@, opt_string(payload.title), payload.state));
            }
        },
        None => {
            let mut i: usize = 0;
            while i < instance.states.len()
                invariant
                    i <= instance.states@.len() == before.len(),
                    before.len() <= instance.action.states@.len(),
                    instance.action == old(instance).action,
                    instance.context == old(instance).context,
                    instance.children == old(instance).children,
                    instance.settings == old(instance).settings,
                    instance.current_state == old(instance).current_state,
                    before == old(instance).states@,
                    forall|k: int| 0 <= k < i ==> #[trigger] instance.states@[k]@ == titled_states(old(instance)@, opt_string(payload.title), None)[k],
                    forall|k: int| i <= k < before.len() ==> #[trigger] instance.states@[k] == before[k],
                decreases before.len() - i,
            {
                let text = match &payload.title {
                    Some(t) => t.clone(),
                    None => instance.action.states[i].text.clone(),
                };
                proof {
                    assert(instance.action@.states[i as int] == instance.action.states@[i as int]@);
                }
                let ghost prev = instance.states@;
                instance.states[i].text = text;
                proof {
                    assert forall|k: int| 0 <= k < instance.states@.len() && k != i implies instance.states@[k] == prev[k] by {}
                }
                i = i + 1;
            }
            proof {
                assert(states_view(instance.states@) =~= titled_states(old(instance)@, opt_string(payload.title), None));
            }
        },
    }
    Ok(render(instance))
}

/// Classify an image a plugin sends.
pub fn normalize_image_payload(image: Option<String>) -> (r: ImagePayload)
    ensures
        match image {
            None => r is Unset,
            Some(i) => if trimmed(i@).len() == 0 {
                r is Unset
            } else if !has_prefix(trimmed(i@), "data:"@) {
                r matches ImagePayload::PluginFile(p) && p@ == trimmed(i@)
            } else {
                r matches ImagePayload::Inline(v) && v@ == i@
            },
        },
{
    match image {
        None => ImagePayload::Unset,
        Some(i) => {
            let t = trim(i.as_str());
            if t.unicode_len() == 0 {
                ImagePayload::Unset
            } else if !starts_with(t, "data:") {
                ImagePayload::PluginFile(t.to_owned())
            } else {
                ImagePayload::Inline(i)
            }
        },
    }
}

/// Apply an image request, the image already resolved (`None` restores the
/// action's images).  A state past the instance's states is refused and
/// nothing changes.
pub fn set_image(instance: &mut ActionInstance, image: Option<String>, state: Option<u16>) -> (r: Result<StateRender, StateOutOfBounds>)
    requires
        request_applies(old(instance)@, state),
    ensures
        match state {
            Some(s) if s >= old(instance)@.states.len() => {
                &&& r matches Err(e) && e.state == s && e.count == old(instance)@.states.len()
                &&& final(instance)@ == old(instance)@
            },
            _ => {
                &&& final(instance)@ == (ActionInstanceView {
                    states: imaged_states(old(instance)@, opt_string(image), state),
                    ..old(instance)@
                })
                &&& r matches Ok(rendered) && renders(rendered, final(instance)@)
            },
        },
{
    let ghost before = instance.states@;
    match state {
        Some(s) => {
            if s as usize >= instance.states.len() {
                return Err(StateOutOfBounds { state: s, count: instance.states.len() });
            }
            let img = match &image {
                Some(t) => t.clone(),
                None => instance.action.states[s as usize].image.clone(),
            };
            proof {
                assert(instance.action@.states[s as int] == instance.action.states@[s as int]@);
            }
            instance.states[s as usize].image = img;
            proof {
                assert(states_view(instance.states@) =~= imaged_states(old(instance)@, opt_string(image), state));
            }
        },
        None => {
            let mut i: usize = 0;
            while i < instance.states.len()
                invariant
                    i <= instance.states@.len() == before.len(),
                    before.len() <= instance.action.states@.len(),
                    instance.action == old(instance).action,
                    instance.context == old(instance).context,
                    instance.children == old(instance).children,
                    instance.settings == old(instance).settings,
                    instance.current_state == old(instance).current_state,
                    before == old(instance).states@,
                    forall|k: int| 0 <= k < i ==> #[trigger] instance.states@[k]@ == imaged_states(old(instance)@, opt_string(image), None)[k],
                    forall|k: int| i <= k < before.len() ==> #[trigger] instance.states@[k] == before[k],
                decreases before.len() - i,
            {
                let img = match &image {
                    Some(t) => t.clone(),
                    None => instance.action.states[i].image.clone(),
                };
                proof {
                    assert(instance.action@.states[i as int] == instance.action.states@[i as int]@);
                }
                let ghost prev = instance.states@;
                instance.states[i].image = img;
                proof {
                    assert forall|k: int| 0 <= k < instance.states@.len() && k != i implies instance.states@[k] == prev[k] by {}
                }
                i = i + 1;
            }
            proof {
                assert(states_view(instance.states@) =~= imaged_states(old(instance)@, opt_string(image), None));
            }
        },
    }
    Ok(render(instance))
}

/// Make `payload.state` the current state; a state past the instance's
/// states is ignored.
pub fn set_state(instance: &mut ActionInstance, payload: &SetStatePayload) -> (r: Option<StateRender>)
    ensures
        payload.state >= old(instance)@.states.len() ==> r is None && final(instance)@ == old(instance)@,
        payload.state < old(instance)@.states.len() ==> {
            &&& final(instance)@ == (ActionInstanceView { current_state: payload.state, ..old(instance)@ })
            &&& r matches Some(rendered) && renders(rendered, final(instance)@)
        },
{
    if payload.state as usize >= instance.states.len() {
        return None;
    }
    instance.current_state = payload.state;
    Some(render(instance))
}

/// Record what a changed instance shows.  An infobar slot remembers its new
/// title and image (and forgets its component and animation) and is redrawn
/// from them, so no image is returned; any other slot is drawn with the
/// returned image.
pub fn apply_render(slots: &mut InfobarSlots, rendered: StateRender) -> (image: Option<String>)
    ensures
        rendered.is_infobar ==> {
            let key = (rendered.context@.device, rendered.context@.position);
            &&& image is None
            &&& final(slots).components() == old(slots).components().remove(key)
            &&& final(slots).scroll_tasks() == old(slots).scroll_tasks().remove(key)
            &&& final(slots).texts() == old(slots).texts().insert(key, rendered.text@)
            &&& final(slots).images() == old(slots).images().insert(key, rendered.image@)
        },
        !rendered.is_infobar ==> {
            &&& image matches Some(i) && i@ == rendered.image@
            &&& final(slots).components() == old(slots).components()
            &&& final(slots).scroll_tasks() == old(slots).scroll_tasks()
            &&& final(slots).texts() == old(slots).texts()
            &&& final(slots).images() == old(slots).images()
        },
{
    if rendered.is_infobar {
        record_infobar_render(
            slots,
            rendered.context.device.as_str(),
            rendered.context.position,
            rendered.text,
            rendered.image,
        );
        None
    } else {
        Some(rendered.image)
    }
}

/// A later title request for the same states replaces an earlier one.
pub proof fn law_later_title_wins(
    inst: ActionInstanceView,
    first: Option<Seq<char>>,
    second: Option<Seq<char>>,
    state: Option<u16>,
)
    requires
        state matches Some(s) ==> s < inst.states.len(),
    ensures
        titled_states(ActionInstanceView { states: titled_states(inst, first, state), ..inst }, second, state)
            == titled_states(inst, second, state),
{
    let once = ActionInstanceView { states: titled_states(inst, first, state), ..inst };
    assert(titled_states(once, second, state) =~= titled_states(inst, second, state));
}

/// Title and image requests touch different fields, so their order does not
/// matter.
pub proof fn law_title_and_image_commute(
    inst: ActionInstanceView,
    title: Option<Seq<char>>,
    title_state: Option<u16>,
    image: Option<Seq<char>>,
    image_state: Option<u16>,
)
    requires
        title_state matches Some(s) ==> s < inst.states.len(),
        image_state matches Some(s) ==> s < inst.states.len(),
    ensures
        imaged_states(ActionInstanceView { states: titled_states(inst, title, title_state), ..inst }, image, image_state)
            == titled_states(ActionInstanceView { states: imaged_states(inst, image, image_state), ..inst }, title, title_state),
{
    let a = imaged_states(ActionInstanceView { states: titled_states(inst, title, title_state), ..inst }, image, image_state);
    let b = titled_states(ActionInstanceView { states: imaged_states(inst, image, image_state), ..inst }, title, title_state);
    assert(a =~= b);
}

} // verus!
