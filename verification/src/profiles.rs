//! Switching the selected profile of a device: which instances disappear and
//! appear, which infobar slots keep what they show, and which slots are
//! drawn again.

use vstd::prelude::*;
use crate::model::{
    duplicate_instances, instances_view, lemma_instances_view, slots_view, ActionInstance, ActionInstanceView,
    Context, ContextView, DeviceInfo, Profile, ProfileView,
};

verus! {

/// The instances in a list of slots, in slot order.
pub open spec fn occupied(slots: Seq<Option<ActionInstanceView>>) -> Seq<ActionInstanceView>
    decreases slots.len(),
{
    if slots.len() == 0 {
        Seq::empty()
    } else {
        let rest = occupied(slots.drop_last());
        match slots.last() {
            Some(i) => rest.push(i),
            None => rest,
        }
    }
}

/// The instances of a profile: keys, then sliders, then infobar slots.
pub open spec fn profile_instances_of(p: ProfileView) -> Seq<ActionInstanceView> {
    occupied(p.keys) + occupied(p.sliders) + occupied(p.infobar)
}

fn push_occupied(out: &mut Vec<ActionInstance>, slots: &Vec<Option<ActionInstance>>)
    ensures
        instances_view(final(out)@) == instances_view(old(out)@) + occupied(slots_view(slots@)),
{
    let ghost start = instances_view(out@);
    let mut i: usize = 0;
    proof {
        assert(slots_view(slots@.take(0)) =~= Seq::<Option<ActionInstanceView>>::empty());
        assert(start + occupied(Seq::<Option<ActionInstanceView>>::empty()) =~= start);
    }
    while i < slots.len()
        invariant
            i <= slots.len(),
            instances_view(out@) == start + occupied(slots_view(slots@.take(i as int))),
        decreases slots.len() - i,
    {
        proof {
            assert(slots_view(slots@.take(i as int + 1)).drop_last() =~= slots_view(slots@.take(i as int)));
            assert(slots_view(slots@.take(i as int + 1)).last() == slots_view(slots@)[i as int]);
        }
        match &slots[i] {
            Some(inst) => {
                let ghost before = out@;
                out.push(inst.duplicate());
                proof {
                    assert(out@.drop_last() =~= before);
                    assert(instances_view(out@) == instances_view(before).push(inst@));
                    assert(instances_view(out@) =~= start + occupied(slots_view(slots@.take(i as int + 1))));
                }
            },
            None => {
                proof {
                    assert(instances_view(out@) =~= start + occupied(slots_view(slots@.take(i as int + 1))));
                }
            },
        }
        i = i + 1;
    }
    proof {
        assert(slots@.take(slots.len() as int) =~= slots@);
    }
}

/// Every instance of a profile.
pub fn profile_instances(profile: &Profile) -> (r: Vec<ActionInstance>)
    ensures
        instances_view(r@) == profile_instances_of(profile@),
{
    let mut r: Vec<ActionInstance> = Vec::new();
    proof {
        assert(instances_view(r@) =~= Seq::<ActionInstanceView>::empty());
    }
    push_occupied(&mut r, &profile.keys);
    push_occupied(&mut r, &profile.sliders);
    push_occupied(&mut r, &profile.infobar);
    proof {
        assert(Seq::<ActionInstanceView>::empty() + occupied(profile@.keys) =~= occupied(profile@.keys));
    }
    r
}

/// The action identifier of each infobar slot.
pub open spec fn infobar_uuids_of(p: ProfileView) -> Seq<Option<Seq<char>>> {
    p.infobar.map_values(|o: Option<ActionInstanceView>| match o {
        Some(i) => Some(i.action.uuid),
        None => None,
    })
}

pub open spec fn opt_strings_view(v: Seq<Option<String>>) -> Seq<Option<Seq<char>>> {
    v.map_values(|o: Option<String>| match o {
        Some(s) => Some(s@),
        None => None,
    })
}

/// The action identifier of each infobar slot of a profile.
pub fn infobar_action_uuids(profile: &Profile) -> (r: Vec<Option<String>>)
    ensures
        opt_strings_view(r@) == infobar_uuids_of(profile@),
{
    let mut r: Vec<Option<String>> = Vec::new();
    let mut i: usize = 0;
    while i < profile.infobar.len()
        invariant
            i <= profile.infobar@.len(),
            r@.len() == i,
            forall|k: int| 0 <= k < i ==> #[trigger] opt_strings_view(r@)[k] == infobar_uuids_of(profile@)[k],
        decreases profile.infobar.len() - i,
    {
        let u = match &profile.infobar[i] {
            Some(inst) => Some(inst.action.uuid.clone()),
            None => None,
        };
        let ghost prev = r@;
        r.push(u);
        proof {
            assert forall|k: int| 0 <= k <= i implies #[trigger] opt_strings_view(r@)[k] == infobar_uuids_of(profile@)[k] by {
                if k < i {
                    assert(opt_strings_view(r@)[k] == opt_strings_view(prev)[k]);
                }
            }
        }
        i = i + 1;
    }
    assert(opt_strings_view(r@) =~= infobar_uuids_of(profile@));
    r
}

/// An infobar slot keeps what it shows across a switch when both profiles
/// hold an instance of the same action there.
pub open spec fn keeps_render(old_uuids: Seq<Option<Seq<char>>>, new_uuids: Seq<Option<Seq<char>>>, position: int) -> bool {
    &&& position < old_uuids.len()
    &&& position < new_uuids.len()
    &&& old_uuids[position] == new_uuids[position]
    &&& new_uuids[position] is Some
}

fn opt_eq(a: &Option<String>, b: &Option<String>) -> (r: bool)
    ensures
        r == (match (*a, *b) {
            (Some(x), Some(y)) => x@ == y@,
            (None, None) => true,
            _ => false,
        }),
{
    match (a, b) {
        (Some(x), Some(y)) => *x == *y,
        (None, None) => true,
        _ => false,
    }
}

/// Whether an infobar slot keeps what it shows across a switch.
pub fn keeps_infobar_render(old_uuids: &Vec<Option<String>>, new_uuids: &Vec<Option<String>>, position: u8) -> (r: bool)
    ensures
        r == keeps_render(opt_strings_view(old_uuids@), opt_strings_view(new_uuids@), position as int),
{
    let p = position as usize;
    if p >= old_uuids.len() || p >= new_uuids.len() {
        return false;
    }
    let same = opt_eq(&old_uuids[p], &new_uuids[p]);
    proof {
        assert(opt_strings_view(old_uuids@)[p as int] == (match old_uuids@[p as int] { Some(s) => Some(s@), None => None }));
        assert(opt_strings_view(new_uuids@)[p as int] == (match new_uuids@[p as int] { Some(s) => Some(s@), None => None }));
    }
    same && new_uuids[p].is_some()
}

/// A slot to draw again, with the image to draw (`None` clears it or lets
/// the device compose it).
pub struct SlotUpdate {
    pub context: Context,
    pub image: Option<String>,
}

pub struct SlotUpdateView {
    pub context: ContextView,
    pub image: Option<Seq<char>>,
}

/// The image of the current state of the instance in a slot, if any.
pub open spec fn slot_image_of(slot: Option<ActionInstanceView>) -> Option<Seq<char>> {
    match slot {
        Some(i) => if i.current_state < i.states.len() { Some(i.states[i.current_state as int].image) } else { None },
        None => None,
    }
}

pub open spec fn slot_at(slots: Seq<Option<ActionInstanceView>>, position: int) -> Option<ActionInstanceView> {
    if 0 <= position < slots.len() { slots[position] } else { None }
}

pub open spec fn update_view(u: SlotUpdate) -> SlotUpdateView {
    SlotUpdateView {
        context: u.context@,
        image: match u.image {
            Some(s) => Some(s@),
            None => None,
        },
    }
}

pub open spec fn slot_context(device: Seq<char>, profile: Seq<char>, controller: Seq<char>, position: int) -> ContextView {
    ContextView { device, profile, controller, position: position as u8 }
}

pub open spec fn key_update(device: Seq<char>, profile: ProfileView, p: int) -> SlotUpdateView {
    SlotUpdateView { context: slot_context(device, profile.id, "Keypad"@, p), image: slot_image_of(slot_at(profile.keys, p)) }
}

pub open spec fn encoder_update(device: Seq<char>, profile: ProfileView, p: int) -> SlotUpdateView {
    SlotUpdateView {
        context: slot_context(device, profile.id, "Encoder"@, p),
        image: slot_image_of(slot_at(profile.sliders, p)),
    }
}

/// The key slots and encoder slots, each with the image of its instance.
pub open spec fn control_updates(device: Seq<char>, profile: ProfileView, keys: nat, encoders: nat) -> Seq<SlotUpdateView> {
    Seq::new(keys, |p: int| key_update(device, profile, p)) + Seq::new(encoders, |p: int| encoder_update(device, profile, p))
}

/// Whether an infobar slot is drawn again after a switch: not when it keeps
/// its render, nor when its component is unchanged and does not scroll.
pub open spec fn infobar_redrawn(
    old_uuids: Seq<Option<Seq<char>>>,
    new_uuids: Seq<Option<Seq<char>>>,
    old_components: Seq<Option<Seq<char>>>,
    new_components: Seq<Option<Seq<char>>>,
    scrollable: Seq<bool>,
    p: int,
) -> bool {
    !keeps_render(old_uuids, new_uuids, p) && !((if p < old_components.len() { Some(old_components[p]) } else { None })
        == (if p < new_components.len() { Some(new_components[p]) } else { None }) && !(p < scrollable.len()
        && scrollable[p]))
}

/// The infobar slots among the first `n` that are drawn again.
pub open spec fn infobar_updates(
    device: Seq<char>,
    profile: Seq<char>,
    old_uuids: Seq<Option<Seq<char>>>,
    new_uuids: Seq<Option<Seq<char>>>,
    old_components: Seq<Option<Seq<char>>>,
    new_components: Seq<Option<Seq<char>>>,
    scrollable: Seq<bool>,
    n: nat,
) -> Seq<SlotUpdateView>
    decreases n,
{
    if n == 0 {
        Seq::empty()
    } else {
        let before = infobar_updates(
            device,
            profile,
            old_uuids,
            new_uuids,
            old_components,
            new_components,
            scrollable,
            (n - 1) as nat,
        );
        if infobar_redrawn(old_uuids, new_uuids, old_components, new_components, scrollable, n - 1) {
            before.push(SlotUpdateView { context: slot_context(device, profile, "Infobar"@, n - 1), image: None })
        } else {
            before
        }
    }
}

fn slot_image(slots: &Vec<Option<ActionInstance>>, position: u8) -> (r: Option<String>)
    ensures
        (match r {
            Some(s) => Some(s@),
            None => None,
        }) == slot_image_of(slot_at(slots_view(slots@), position as int)),
{
    if position as usize >= slots.len() {
        return None;
    }
    proof {
        assert(slots_view(slots@)[position as int] == (match slots@[position as int] { Some(i) => Some(i@), None => None }));
    }
    match &slots[position as usize] {
        Some(inst) => {
            if (inst.current_state as usize) < inst.states.len() {
                proof {
                    assert(inst@.states[inst.current_state as int] == inst.states@[inst.current_state as int]@);
                }
                Some(inst.states[inst.current_state as usize].image.clone())
            } else {
                None
            }
        },
        None => None,
    }
}

fn make_context(device: &str, profile: &String, controller: &str, position: u8) -> (r: Context)
    ensures
        r@ == slot_context(device@, profile@, controller@, position as int),
{
    Context { device: device.to_owned(), profile: profile.clone(), controller: controller.to_owned(), position }
}

/// The slots to draw again after switching `device` to `new_profile`: every
/// key (and touch point) and encoder with its instance's image, then the
/// infobar slots that neither keep their render nor hold an unchanged,
/// still component.
pub fn plan_slot_updates(
    device: &str,
    info: &DeviceInfo,
    new_profile: &Profile,
    old_uuids: &Vec<Option<String>>,
    new_uuids: &Vec<Option<String>>,
    old_components: &Vec<Option<String>>,
    new_components: &Vec<Option<String>>,
    scrollable: &Vec<bool>,
) -> (r: Vec<SlotUpdate>)
    requires
        info.rows * info.columns + info.touchpoints <= 255,
    ensures
        r@.map_values(|u: SlotUpdate| update_view(u)) == control_updates(
            device@,
            new_profile@,
            (info.rows * info.columns + info.touchpoints) as nat,
            info.encoders as nat,
        ) + infobar_updates(
            device@,
            new_profile@.id,
            opt_strings_view(old_uuids@),
            opt_strings_view(new_uuids@),
            opt_strings_view(old_components@),
            opt_strings_view(new_components@),
            scrollable@,
            info.infobar as nat,
        ),
{
    let mut r: Vec<SlotUpdate> = Vec::new();
    let keys: u8 = info.rows * info.columns + info.touchpoints;
    let ghost pv = new_profile@;
    let ghost dv = device@;
    let mut p: u8 = 0;
    while p < keys
        invariant
            p <= keys,
            pv == new_profile@,
            dv == device@,
            r@.len() == p,
            forall|k: int| 0 <= k < p ==> #[trigger] update_view(r@[k]) == key_update(dv, pv, k),
        decreases keys - p,
    {
        let image = slot_image(&new_profile.keys, p);
        r.push(SlotUpdate { context: make_context(device, &new_profile.id, "Keypad", p), image });
        p = p + 1;
    }
    let mut e: u8 = 0;
    while e < info.encoders
        invariant
            e <= info.encoders,
            pv == new_profile@,
            dv == device@,
            r@.len() == keys + e,
            forall|k: int| 0 <= k < keys ==> #[trigger] update_view(r@[k]) == key_update(dv, pv, k),
            forall|k: int| 0 <= k < e ==> #[trigger] update_view(r@[keys + k]) == encoder_update(dv, pv, k),
        decreases info.encoders - e,
    {
        let image = slot_image(&new_profile.sliders, e);
        let ghost prev = r@;
        r.push(SlotUpdate { context: make_context(device, &new_profile.id, "Encoder", e), image });
        proof {
            assert forall|k: int| 0 <= k < keys implies #[trigger] update_view(r@[k]) == key_update(dv, pv, k) by {
                assert(r@[k] == prev[k]);
            }
            assert forall|k: int| 0 <= k < e + 1 implies #[trigger] update_view(r@[keys + k]) == encoder_update(dv, pv, k) by {
                if k < e {
                    assert(r@[keys + k] == prev[keys + k]);
                }
            }
        }
        e = e + 1;
    }
    let ghost controls = r@.map_values(|u: SlotUpdate| update_view(u));
    proof {
        let want = control_updates(dv, pv, keys as nat, info.encoders as nat);
        assert(controls.len() == want.len());
        assert forall|k: int| 0 <= k < want.len() implies controls[k] == want[k] by {
            if k < keys {
                assert(update_view(r@[k]) == key_update(dv, pv, k));
            } else {
                let j = k - keys;
                assert(update_view(r@[keys + j]) == encoder_update(dv, pv, j));
            }
        }
        assert(controls =~= want);
    }
    let ghost ou = opt_strings_view(old_uuids@);
    let ghost nu = opt_strings_view(new_uuids@);
    let ghost oc = opt_strings_view(old_components@);
    let ghost nc = opt_strings_view(new_components@);
    let mut q: u8 = 0;
    while q < info.infobar
        invariant
            q <= info.infobar,
            pv == new_profile@,
            dv == device@,
            ou == opt_strings_view(old_uuids@),
            nu == opt_strings_view(new_uuids@),
            oc == opt_strings_view(old_components@),
            nc == opt_strings_view(new_components@),
            r@.map_values(|u: SlotUpdate| update_view(u)) == controls + infobar_updates(dv, pv.id, ou, nu, oc, nc, scrollable@, q as nat),
        decreases info.infobar - q,
    {
        let ghost prev = r@;
        if !keeps_infobar_render(old_uuids, new_uuids, q) {
            let qi = q as usize;
            let old_c = if qi < old_components.len() { Some(&old_components[qi]) } else { None };
            let new_c = if qi < new_components.len() { Some(&new_components[qi]) } else { None };
            let unchanged = match (old_c, new_c) {
                (Some(a), Some(b)) => opt_eq(a, b),
                (None, None) => true,
                _ => false,
            };
            let scrolls = qi < scrollable.len() && scrollable[qi];
            proof {
                if qi < old_components.len() {
                    assert(oc[qi as int] == (match old_components@[qi as int] { Some(s) => Some(s@), None => None }));
                }
                if qi < new_components.len() {
                    assert(nc[qi as int] == (match new_components@[qi as int] { Some(s) => Some(s@), None => None }));
                }
                assert(unchanged == ((if qi < oc.len() { Some(oc[qi as int]) } else { None }) == (if qi < nc.len() {
                    Some(nc[qi as int])
                } else {
                    None
                })));
            }
            if !(unchanged && !scrolls) {
                r.push(SlotUpdate { context: make_context(device, &new_profile.id, "Infobar", q), image: None });
                proof {
                    assert(r@.map_values(|u: SlotUpdate| update_view(u)) =~= prev.map_values(|u: SlotUpdate| update_view(u)).push(
                        SlotUpdateView { context: slot_context(dv, pv.id, "Infobar"@, q as int), image: None },
                    ));
                }
            }
        }
        q = q + 1;
    }
    r
}

/// The image a slot of a profile is drawn with: the image of the current
/// state of the instance stored there, or none when the slot is empty, past
/// the profile's slots, or the instance's current state does not exist.
pub open spec fn current_state_image(slots: Seq<Option<ActionInstanceView>>, p: int) -> Option<Seq<char>> {
    if 0 <= p < slots.len() && slots[p] is Some && slots[p]->0.current_state < slots[p]->0.states.len() {
        Some(slots[p]->0.states[slots[p]->0.current_state as int].image)
    } else {
        None
    }
}

/// After a switch every key (touch points included) and then every encoder
/// is drawn again, in position order, each in the new profile with the
/// image of the current state of the instance stored there.
pub proof fn law_switch_draws_current_state_images(
    device: Seq<char>,
    profile: ProfileView,
    keys: nat,
    encoders: nat,
    p: int,
)
    ensures
        control_updates(device, profile, keys, encoders).len() == keys + encoders,
        0 <= p < keys ==> control_updates(device, profile, keys, encoders)[p] == (SlotUpdateView {
            context: ContextView { device, profile: profile.id, controller: "Keypad"@, position: p as u8 },
            image: current_state_image(profile.keys, p),
        }),
        0 <= p < encoders ==> control_updates(device, profile, keys, encoders)[keys + p] == (SlotUpdateView {
            context: ContextView { device, profile: profile.id, controller: "Encoder"@, position: p as u8 },
            image: current_state_image(profile.sliders, p),
        }),
{
}

/// What an infobar slot takes from its instance after a switch.
pub enum InfobarRefresh {
    /// A stack: it keeps what its children put there.
    Leave,
    /// No instance: the slot forgets its image, title and component.
    Forget,
    /// The image (to resolve against the action icon) and title of the
    /// instance's current state.
    Show { image: String, icon: String, text: String },
}

/// What an infobar slot takes from the instance stored there after a switch.
pub fn infobar_refresh(slot: &Option<ActionInstance>) -> (r: InfobarRefresh)
    requires
        match *slot {
            Some(i) => !crate::stack::is_stack_action(i@) ==> i.current_state < i@.states.len(),
            None => true,
        },
    ensures
        match *slot {
            None => r is Forget,
            Some(i) => if crate::stack::is_stack_action(i@) {
                r is Leave
            } else {
                r matches InfobarRefresh::Show { image, icon, text } && image@ == i@.states[i.current_state as int].image
                    && icon@ == i@.action.icon && text@ == i@.states[i.current_state as int].text
            },
        },
{
    match slot {
        None => InfobarRefresh::Forget,
        Some(instance) => {
            if crate::stack::is_infobar_stack(instance) {
                InfobarRefresh::Leave
            } else {
                let state = &instance.states[instance.current_state as usize];
                proof {
                    assert(instance@.states[instance.current_state as int] == state@);
                }
                InfobarRefresh::Show {
                    image: state.image.clone(),
                    icon: instance.action.icon.clone(),
                    text: state.text.clone(),
                }
            }
        },
    }
}

/// After a switch to another profile, each infobar slot shows a pill with
/// the profile name when the setting asks for it and the device has an
/// infobar.
pub fn shows_profile_pill(switching: bool, setting_enabled: bool, infobar_slots: u8) -> (r: bool)
    ensures
        r == (switching && setting_enabled && infobar_slots > 0),
{
    switching && setting_enabled && infobar_slots > 0
}

} // verus!
