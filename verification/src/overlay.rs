//! Temporary images ("overlays") pushed onto infobar slots.  Each slot holds
//! at most one overlay per priority; the image shown is that of the
//! highest-priority overlay that has not expired.  Times are nanoseconds on
//! a monotonic clock that starts when the store is made; durations are given
//! in milliseconds.

use vstd::prelude::*;
use dashmap::DashMap;
use std::time::Instant;
use crate::maps::{
    entries_view, overlay_get, overlay_insert, overlay_map_new, overlay_remove, overlay_retain_other_devices,
    overlay_slots, slot_key,
};
use crate::model::ActionInstance;
use crate::text::{has_prefix, starts_with};

verus! {

/// One pushed overlay.
#[derive(Clone)]
pub struct OverlayEntry {
    /// Unique id assigned at push time, so that the expiry of one push never
    /// removes a newer push at the same priority.
    pub id: u64,
    pub priority: u8,
    pub image: String,
    /// When the overlay stops showing; `None` keeps it until cleared.
    pub expires_at: Option<u64>,
}

pub struct OverlayEntryView {
    pub id: u64,
    pub priority: u8,
    pub image: Seq<char>,
    pub expires_at: Option<u64>,
}

impl View for OverlayEntry {
    type V = OverlayEntryView;

    open spec fn view(&self) -> OverlayEntryView {
        OverlayEntryView { id: self.id, priority: self.priority, image: self.image@, expires_at: self.expires_at }
    }
}

#[verifier::external_type_specification]
#[verifier::external_body]
pub struct ExInstant(Instant);

/// `Instant::now`: the current time of the monotonic clock.
#[verifier::external_body]
fn instant_now() -> Instant {
    Instant::now()
}

/// `Instant::elapsed`: nanoseconds since `origin`.  It depends on the clock,
/// so nothing is stated of it.
#[verifier::external_body]
fn nanos_since(origin: &Instant) -> u64 {
    origin.elapsed().as_nanos() as u64
}

/// Nanoseconds in a millisecond.
pub const NANOS_PER_MILLI: u64 = 1_000_000;

/// All overlays of all slots, and the source of overlay ids.
pub struct OverlayStore {
    slots: DashMap<(String, u8), Vec<OverlayEntry>>,
    next_id: u64,
    origin: Instant,
    /// The latest clock reading the store has been changed at.
    latest: u64,
}

/// Whether an overlay still shows at time `now`.
pub open spec fn is_live(e: OverlayEntryView, now: u64) -> bool {
    match e.expires_at {
        None => true,
        Some(t) => t > now,
    }
}

/// Strictly descending priorities, so one entry per priority.
pub open spec fn sorted_desc(s: Seq<OverlayEntryView>) -> bool {
    forall|i: int, j: int| 0 <= i < j < s.len() ==> s[i].priority > s[j].priority
}

/// The entries of a slot by priority.
pub open spec fn entries_map(s: Seq<OverlayEntryView>) -> Map<u8, OverlayEntryView>
    decreases s.len(),
{
    if s.len() == 0 {
        Map::empty()
    } else {
        entries_map(s.drop_first()).insert(s[0].priority, s[0])
    }
}

/// The image of the highest-priority overlay of `slot` that shows at `now`.
pub open spec fn active_overlay(slot: Map<u8, OverlayEntryView>, now: u64) -> Option<Seq<char>> {
    if exists|p: u8| slot.contains_key(p) && is_live(slot[p], now) {
        let p = choose|p: u8|
            slot.contains_key(p) && is_live(slot[p], now) && (forall|q: u8|
                slot.contains_key(q) && is_live(slot[q], now) ==> q <= p);
        Some(slot[p].image)
    } else {
        None
    }
}

/// The entry a push creates.
pub open spec fn pushed_entry(id: u64, priority: u8, image: Seq<char>, duration_ms: u64, now: u64) -> OverlayEntryView {
    OverlayEntryView {
        id,
        priority,
        image,
        expires_at: if duration_ms > 0 {
            Some(
                if now + duration_ms * NANOS_PER_MILLI > u64::MAX {
                    u64::MAX
                } else {
                    (now + duration_ms * NANOS_PER_MILLI) as u64
                },
            )
        } else {
            None
        },
    }
}

pub open spec fn slot_of(m: Map<(Seq<char>, u8), Map<u8, OverlayEntryView>>, key: (Seq<char>, u8)) -> Map<u8, OverlayEntryView> {
    if m.contains_key(key) { m[key] } else { Map::empty() }
}

/// Whether the expiry of push `id` at `priority` asks for a render: yes when
/// the slot holds no overlays at all or when that push is still in place.
pub open spec fn expiry_rerenders(
    m: Map<(Seq<char>, u8), Map<u8, OverlayEntryView>>,
    key: (Seq<char>, u8),
    priority: u8,
    id: u64,
) -> bool {
    !m.contains_key(key) || (m[key].contains_key(priority) && m[key][priority].id == id)
}

/// The store after the expiry of push `id` at `priority`: that push is gone
/// if it was still in place; nothing else changes.
pub open spec fn after_expiry(
    m: Map<(Seq<char>, u8), Map<u8, OverlayEntryView>>,
    key: (Seq<char>, u8),
    priority: u8,
    id: u64,
) -> Map<(Seq<char>, u8), Map<u8, OverlayEntryView>> {
    if m.contains_key(key) && m[key].contains_key(priority) && m[key][priority].id == id {
        m.insert(key, m[key].remove(priority))
    } else {
        m
    }
}

/// The store after the overlays of a device are cleared.
pub open spec fn after_clear_device(
    m: Map<(Seq<char>, u8), Map<u8, OverlayEntryView>>,
    device: Seq<char>,
) -> Map<(Seq<char>, u8), Map<u8, OverlayEntryView>> {
    m.restrict(m.dom().filter(|k: (Seq<char>, u8)| k.0 != device))
}

/// The store after a push of `entry` at its priority.
pub open spec fn after_push(
    m: Map<(Seq<char>, u8), Map<u8, OverlayEntryView>>,
    key: (Seq<char>, u8),
    entry: OverlayEntryView,
) -> Map<(Seq<char>, u8), Map<u8, OverlayEntryView>> {
    m.insert(key, slot_of(m, key).insert(entry.priority, entry))
}

proof fn lemma_entries_map(s: Seq<OverlayEntryView>)
    requires
        sorted_desc(s),
    ensures
        forall|p: u8| #[trigger] entries_map(s).contains_key(p) <==> exists|i: int| 0 <= i < s.len() && s[i].priority == p,
        forall|i: int| 0 <= i < s.len() ==> #[trigger] entries_map(s)[s[i].priority] == s[i],
    decreases s.len(),
{
    if s.len() > 0 {
        let t = s.drop_first();
        assert(sorted_desc(t)) by {
            assert forall|i: int, j: int| 0 <= i < j < t.len() implies t[i].priority > t[j].priority by {
                assert(t[i] == s[i + 1] && t[j] == s[j + 1]);
            }
        }
        lemma_entries_map(t);
        assert(entries_map(s) == entries_map(t).insert(s[0].priority, s[0]));
        assert forall|p: u8| #[trigger] entries_map(s).contains_key(p) <==> exists|i: int| 0 <= i < s.len() && s[i].priority == p by {
            if entries_map(s).contains_key(p) && p != s[0].priority {
                assert(entries_map(t).contains_key(p));
                let k = choose|k: int| 0 <= k < t.len() && t[k].priority == p;
                assert(s[k + 1] == t[k]);
            }
            if exists|i: int| 0 <= i < s.len() && s[i].priority == p {
                let i = choose|i: int| 0 <= i < s.len() && s[i].priority == p;
                if i > 0 {
                    assert(t[i - 1] == s[i]);
                    assert(t[i - 1].priority == p);
                    assert(entries_map(t).contains_key(p));
                }
            }
        }
        assert forall|i: int| 0 <= i < s.len() implies #[trigger] entries_map(s)[s[i].priority] == s[i] by {
            if i > 0 {
                assert(t[i - 1] == s[i]);
                assert(s[0].priority > s[i].priority);
                assert(entries_map(t)[t[i - 1].priority] == t[i - 1]);
            }
        }
    }
}

proof fn lemma_active_is_first_live(s: Seq<OverlayEntryView>, now: u64, i: int)
    requires
        sorted_desc(s),
        0 <= i < s.len(),
        is_live(s[i], now),
        forall|j: int| 0 <= j < i ==> !is_live(#[trigger] s[j], now),
    ensures
        active_overlay(entries_map(s), now) == Some(s[i].image),
{
    lemma_entries_map(s);
    let m = entries_map(s);
    let p = s[i].priority;
    assert(m[p] == s[i]);
    assert forall|q: u8| m.contains_key(q) && is_live(m[q], now) implies q <= p by {
        let k = choose|k: int| 0 <= k < s.len() && s[k].priority == q;
        assert(m[s[k].priority] == s[k]);
        if k < i {
            assert(!is_live(s[k], now));
        }
    }
    assert(m.contains_key(p) && is_live(m[p], now));
    let c = choose|c: u8|
        m.contains_key(c) && is_live(m[c], now) && (forall|q: u8| m.contains_key(q) && is_live(m[q], now) ==> q <= c);
    assert(c <= p && p <= c);
}

proof fn lemma_none_live(s: Seq<OverlayEntryView>, now: u64)
    requires
        sorted_desc(s),
        forall|j: int| 0 <= j < s.len() ==> !is_live(#[trigger] s[j], now),
    ensures
        active_overlay(entries_map(s), now) is None,
{
    lemma_entries_map(s);
    let m = entries_map(s);
    assert forall|p: u8| !(m.contains_key(p) && is_live(m[p], now)) by {
        if m.contains_key(p) {
            let k = choose|k: int| 0 <= k < s.len() && s[k].priority == p;
            assert(m[s[k].priority] == s[k]);
        }
    }
}

#[verifier::spinoff_prover]
#[verifier::rlimit(40)]
proof fn lemma_put_entry(s: Seq<OverlayEntryView>, e: OverlayEntryView, i: int, t: Seq<OverlayEntryView>)
    requires
        sorted_desc(s),
        0 <= i <= s.len(),
        forall|j: int| 0 <= j < i ==> #[trigger] s[j].priority > e.priority,
        i < s.len() ==> s[i].priority <= e.priority,
        t == (if i < s.len() && s[i].priority == e.priority { s.update(i, e) } else { s.insert(i, e) }),
    ensures
        sorted_desc(t),
        entries_map(t) == entries_map(s).insert(e.priority, e),
{
    if i < s.len() && s[i].priority == e.priority {
        assert forall|a: int, b: int| 0 <= a < b < t.len() implies t[a].priority > t[b].priority by {
            if a == i {
                assert(s[b].priority < s[i].priority);
            } else if b == i {
                assert(s[a].priority > s[i].priority);
            }
        }
    } else {
        assert(t == s.insert(i, e));
        assert(t.len() == s.len() + 1);
        assert forall|a: int, b: int| 0 <= a < b < t.len() implies t[a].priority > t[b].priority by {
            if b < i {
            } else if a < i && b == i {
            } else if a < i && b > i {
                assert(t[b] == s[b - 1]);
            } else if a == i {
                assert(t[b] == s[b - 1]);
                assert(s[i].priority >= s[b - 1].priority);
            } else {
                assert(t[a] == s[a - 1] && t[b] == s[b - 1]);
            }
        }
    }
    lemma_entries_map(s);
    lemma_entries_map(t);
    let want = entries_map(s).insert(e.priority, e);
    assert forall|p: u8| #[trigger] entries_map(t).contains_key(p) <==> want.contains_key(p) by {
        if entries_map(t).contains_key(p) {
            let k = choose|k: int| 0 <= k < t.len() && t[k].priority == p;
            if p != e.priority {
                if i < s.len() && s[i].priority == e.priority {
                    assert(t[k] == s[k]);
                } else if k < i {
                    assert(t[k] == s[k]);
                } else {
                    assert(k != i);
                    assert(t[k] == s[k - 1]);
                }
            }
        }
        if want.contains_key(p) {
            if p == e.priority {
                assert(t[i] == e);
            } else {
                let k = choose|k: int| 0 <= k < s.len() && s[k].priority == p;
                if i < s.len() && s[i].priority == e.priority {
                    assert(t[k] == s[k]);
                } else if k < i {
                    assert(t[k] == s[k]);
                } else {
                    assert(t[k + 1] == s[k]);
                }
            }
        }
    }
    assert forall|p: u8| #[trigger] entries_map(t).contains_key(p) implies entries_map(t)[p] == want[p] by {
        let k = choose|k: int| 0 <= k < t.len() && t[k].priority == p;
        assert(entries_map(t)[t[k].priority] == t[k]);
        if p == e.priority {
            assert(t[i] == e);
            assert(entries_map(t)[t[i].priority] == t[i]);
        } else {
            if i < s.len() && s[i].priority == e.priority {
                assert(t[k] == s[k]);
                assert(entries_map(s)[s[k].priority] == s[k]);
            } else if k < i {
                assert(t[k] == s[k]);
                assert(entries_map(s)[s[k].priority] == s[k]);
            } else {
                assert(k != i);
                assert(t[k] == s[k - 1]);
                assert(entries_map(s)[s[k - 1].priority] == s[k - 1]);
            }
        }
    }
    assert(entries_map(t) =~= want);
}

#[verifier::spinoff_prover]
proof fn lemma_drop_entry(s: Seq<OverlayEntryView>, i: int)
    requires
        sorted_desc(s),
        0 <= i < s.len(),
    ensures
        sorted_desc(s.remove(i)),
        entries_map(s.remove(i)) == entries_map(s).remove(s[i].priority),
{
    let t = s.remove(i);
    assert forall|a: int, b: int| 0 <= a < b < t.len() implies t[a].priority > t[b].priority by {
        if b < i {
        } else if a < i {
            assert(t[b] == s[b + 1]);
        } else {
            assert(t[a] == s[a + 1] && t[b] == s[b + 1]);
        }
    }
    lemma_entries_map(s);
    lemma_entries_map(t);
    let want = entries_map(s).remove(s[i].priority);
    assert forall|p: u8| #[trigger] entries_map(t).contains_key(p) <==> want.contains_key(p) by {
        if entries_map(t).contains_key(p) {
            let k = choose|k: int| 0 <= k < t.len() && t[k].priority == p;
            if k < i {
                assert(t[k] == s[k]);
            } else {
                assert(t[k] == s[k + 1]);
            }
        }
        if want.contains_key(p) {
            let k = choose|k: int| 0 <= k < s.len() && s[k].priority == p;
            if k < i {
                assert(t[k] == s[k]);
            } else {
                assert(k != i);
                assert(t[k - 1] == s[k]);
            }
        }
    }
    assert forall|p: u8| #[trigger] entries_map(t).contains_key(p) implies entries_map(t)[p] == want[p] by {
        let k = choose|k: int| 0 <= k < t.len() && t[k].priority == p;
        assert(entries_map(t)[t[k].priority] == t[k]);
        if k < i {
            assert(t[k] == s[k]);
            assert(entries_map(s)[s[k].priority] == s[k]);
        } else {
            assert(t[k] == s[k + 1]);
            assert(entries_map(s)[s[k + 1].priority] == s[k + 1]);
        }
    }
    assert(entries_map(t) =~= want);
}

impl OverlayStore {
    /// What the store holds: for each slot, its overlays by priority.
    pub closed spec fn view(&self) -> Map<(Seq<char>, u8), Map<u8, OverlayEntryView>> {
        Map::new(
            |k: (Seq<char>, u8)| overlay_slots(self.slots).contains_key(k),
            |k: (Seq<char>, u8)| entries_map(overlay_slots(self.slots)[k]),
        )
    }

    /// The id the next push receives.
    pub closed spec fn next_overlay_id(&self) -> u64 {
        self.next_id
    }

    /// The latest clock reading at which the store was changed; the store's
    /// clock never reads earlier than this again.
    pub closed spec fn latest_time(&self) -> u64 {
        self.latest
    }

    /// Every slot keeps its entries in strictly descending priority.
    #[verifier::type_invariant]
    pub closed spec fn well_formed(&self) -> bool {
        forall|k: (Seq<char>, u8)| #[trigger] overlay_slots(self.slots).contains_key(k) ==> sorted_desc(overlay_slots(self.slots)[k])
    }

    /// A store without overlays; ids start at 0 and the clock at the present.
    pub fn new() -> (r: OverlayStore)
        ensures
            r.view() == Map::<(Seq<char>, u8), Map<u8, OverlayEntryView>>::empty(),
            r.next_overlay_id() == 0,
            r.latest_time() == 0,
    {
        let r = OverlayStore { slots: overlay_map_new(), next_id: 0, origin: instant_now(), latest: 0 };
        assert(r.view() =~= Map::<(Seq<char>, u8), Map<u8, OverlayEntryView>>::empty()) by {
            assert(overlay_slots(r.slots).dom() =~= Set::<(Seq<char>, u8)>::empty());
        }
        r
    }
}

/// Put `entries` at `key`; the map is swapped out while it changes, so the
/// store keeps its invariant throughout.
fn store_insert(store: &mut OverlayStore, key: (String, u8), entries: Vec<OverlayEntry>)
    requires
        sorted_desc(entries_view(entries@)),
    ensures
        final(store).next_id == old(store).next_id,
        final(store).latest == old(store).latest,
        overlay_slots(final(store).slots) == overlay_slots(old(store).slots).insert(slot_key(key), entries_view(entries@)),
{
    proof {
        use_type_invariant(&*store);
    }
    let mut slots = overlay_map_new();
    std::mem::swap(&mut slots, &mut store.slots);
    let ghost before = slots;
    let ghost k = slot_key(key);
    overlay_insert(&mut slots, key, entries);
    proof {
        assert forall|k2: (Seq<char>, u8)| #[trigger] overlay_slots(slots).contains_key(k2) implies sorted_desc(overlay_slots(slots)[k2]) by {
            if k2 != k {
                assert(overlay_slots(before).contains_key(k2));
            }
        }
    }
    store.slots = slots;
}

/// Remove the entries at `key`.
fn store_remove(store: &mut OverlayStore, key: &(String, u8))
    ensures
        final(store).next_id == old(store).next_id,
        final(store).latest == old(store).latest,
        overlay_slots(final(store).slots) == overlay_slots(old(store).slots).remove(slot_key(*key)),
{
    proof {
        use_type_invariant(&*store);
    }
    let mut slots = overlay_map_new();
    std::mem::swap(&mut slots, &mut store.slots);
    let ghost before = slots;
    overlay_remove(&mut slots, key);
    proof {
        assert forall|k2: (Seq<char>, u8)| #[trigger] overlay_slots(slots).contains_key(k2) implies sorted_desc(overlay_slots(slots)[k2]) by {
            assert(overlay_slots(before).contains_key(k2));
        }
    }
    store.slots = slots;
}

/// Keep only the entries of devices other than `device`.
fn store_retain_other_devices(store: &mut OverlayStore, device: &str)
    ensures
        final(store).next_id == old(store).next_id,
        final(store).latest == old(store).latest,
        overlay_slots(final(store).slots) == overlay_slots(old(store).slots).restrict(
            overlay_slots(old(store).slots).dom().filter(|k: (Seq<char>, u8)| k.0 != device@),
        ),
{
    proof {
        use_type_invariant(&*store);
    }
    let mut slots = overlay_map_new();
    std::mem::swap(&mut slots, &mut store.slots);
    let ghost before = slots;
    overlay_retain_other_devices(&mut slots, device);
    proof {
        assert forall|k2: (Seq<char>, u8)| #[trigger] overlay_slots(slots).contains_key(k2) implies sorted_desc(overlay_slots(slots)[k2]) by {
            assert(overlay_slots(before).contains_key(k2));
        }
    }
    store.slots = slots;
}

/// The image of the highest-priority overlay of a slot that has not
/// expired at time `now`, or `None` when no such overlay exists.
pub fn get_active_overlay_at(store: &OverlayStore, device_id: &str, position: u8, now: u64) -> (r: Option<String>)
    ensures
        match r {
            Some(image) => active_overlay(slot_of(store.view(), (device_id@, position)), now) == Some(image@),
            None => active_overlay(slot_of(store.view(), (device_id@, position)), now) is None,
        },
{
    proof {
        use_type_invariant(store);
    }
    let key = (device_id.to_owned(), position);
    let entries = match overlay_get(&store.slots, &key) {
        Some(v) => v,
        None => {
            proof {
                assert(slot_of(store.view(), (device_id@, position)) == Map::<u8, OverlayEntryView>::empty());
                assert(entries_map(Seq::<OverlayEntryView>::empty()) == Map::<u8, OverlayEntryView>::empty());
                lemma_none_live(Seq::<OverlayEntryView>::empty(), now);
            }
            return None;
        },
    };
    let ghost s = entries_view(entries@);
    proof {
        assert(overlay_slots(store.slots).contains_key(slot_key(key)));
        assert(slot_of(store.view(), (device_id@, position)) == entries_map(s));
    }
    let mut i: usize = 0;
    while i < entries.len()
        invariant
            i <= entries.len(),
            s == entries_view(entries@),
            sorted_desc(s),
            slot_of(store.view(), (device_id@, position)) == entries_map(s),
            forall|j: int| 0 <= j < i ==> !is_live(#[trigger] s[j], now),
        decreases entries.len() - i,
    {
        let e = &entries[i];
        let live = match e.expires_at {
            None => true,
            Some(t) => t > now,
        };
        if live {
            proof {
                assert(s[i as int] == e@);
                lemma_active_is_first_live(s, now, i as int);
            }
            return Some(e.image.clone());
        }
        proof {
            assert(s[i as int] == e@);
        }
        i = i + 1;
    }
    proof {
        lemma_none_live(s, now);
    }
    None
}

/// The present time of the store's clock: its reading, never earlier than a
/// reading the store was already changed at (the clock is monotonic).
fn present_time(store: &OverlayStore) -> (t: u64)
    ensures
        t >= store.latest_time(),
{
    let reading = nanos_since(&store.origin);
    if reading > store.latest {
        reading
    } else {
        store.latest
    }
}

/// The image of the highest-priority overlay of a slot that has not
/// expired, at the present time of the store's clock.
pub fn get_active_overlay(store: &OverlayStore, device_id: &str, position: u8) -> (r: Option<String>)
    ensures
        exists|now: u64|
            now >= store.latest_time() && match r {
                Some(image) => active_overlay(slot_of(store.view(), (device_id@, position)), now) == Some(image@),
                None => active_overlay(slot_of(store.view(), (device_id@, position)), now) is None,
            },
{
    let now = present_time(store);
    get_active_overlay_at(store, device_id, position, now)
}

/// `r` holds exactly the overlays of `slot` that show at `now` (in
/// descending priority, given `sorted_desc(r)`).
pub open spec fn lists_live(slot: Map<u8, OverlayEntryView>, r: Seq<OverlayEntryView>, now: u64) -> bool {
    &&& forall|j: int| 0 <= j < r.len() ==> {
        let e = #[trigger] r[j];
        &&& slot.contains_key(e.priority)
        &&& slot[e.priority] == e
        &&& is_live(e, now)
    }
    &&& forall|p: u8| #[trigger] slot.contains_key(p) && is_live(slot[p], now) ==> exists|j: int| 0 <= j < r.len() && r[j].priority == p
}

/// The entries `s[idx[0]], s[idx[1]], ...` picked out of a slot are its
/// live entries, in the slot's order.
spec fn picks_live(s: Seq<OverlayEntryView>, r: Seq<OverlayEntryView>, idx: Seq<int>, upto: int, now: u64) -> bool {
    &&& r.len() == idx.len()
    &&& forall|j: int| 0 <= j < idx.len() ==> 0 <= #[trigger] idx[j] < upto && r[j] == s[idx[j]] && is_live(s[idx[j]], now)
    &&& forall|a: int, b: int| 0 <= a < b < idx.len() ==> #[trigger] idx[a] < #[trigger] idx[b]
    &&& forall|k: int| 0 <= k < upto && is_live(#[trigger] s[k], now) ==> exists|j: int| 0 <= j < idx.len() && idx[j] == k
}

proof fn lemma_picks_live(s: Seq<OverlayEntryView>, r: Seq<OverlayEntryView>, idx: Seq<int>, now: u64)
    requires
        sorted_desc(s),
        picks_live(s, r, idx, s.len() as int, now),
    ensures
        sorted_desc(r),
        lists_live(entries_map(s), r, now),
{
    lemma_entries_map(s);
    assert forall|a: int, b: int| 0 <= a < b < r.len() implies r[a].priority > r[b].priority by {
        assert(idx[a] < idx[b]);
    }
    assert forall|j: int| 0 <= j < r.len() implies {
        let e = #[trigger] r[j];
        &&& entries_map(s).contains_key(e.priority)
        &&& entries_map(s)[e.priority] == e
        &&& is_live(e, now)
    } by {
        assert(entries_map(s)[s[idx[j]].priority] == s[idx[j]]);
    }
    assert forall|p: u8| #[trigger] entries_map(s).contains_key(p) && is_live(entries_map(s)[p], now)
        implies exists|j: int| 0 <= j < r.len() && r[j].priority == p by {
        let k = choose|k: int| 0 <= k < s.len() && s[k].priority == p;
        assert(entries_map(s)[s[k].priority] == s[k]);
        assert(is_live(s[k], now));
        let j = choose|j: int| 0 <= j < idx.len() && idx[j] == k;
        assert(r[j] == s[k]);
    }
}

/// Every overlay of a slot that shows at time `now`, highest priority
/// first: the one shown, then those a failing image falls back to.
pub fn live_overlays_at(store: &OverlayStore, device_id: &str, position: u8, now: u64) -> (r: Vec<OverlayEntry>)
    ensures
        sorted_desc(entries_view(r@)),
        lists_live(slot_of(store.view(), (device_id@, position)), entries_view(r@), now),
{
    proof {
        use_type_invariant(store);
    }
    let mut r: Vec<OverlayEntry> = Vec::new();
    let key = (device_id.to_owned(), position);
    let entries = match overlay_get(&store.slots, &key) {
        Some(v) => v,
        None => {
            proof {
                assert(slot_of(store.view(), (device_id@, position)) == Map::<u8, OverlayEntryView>::empty());
                assert(entries_view(r@) =~= Seq::<OverlayEntryView>::empty());
            }
            return r;
        },
    };
    let ghost s = entries_view(entries@);
    let ghost mut idx: Seq<int> = Seq::empty();
    proof {
        assert(overlay_slots(store.slots).contains_key(slot_key(key)));
        assert(slot_of(store.view(), (device_id@, position)) == entries_map(s));
    }
    let mut i: usize = 0;
    while i < entries.len()
        invariant
            i <= entries.len(),
            s == entries_view(entries@),
            picks_live(s, entries_view(r@), idx, i as int, now),
        decreases entries.len() - i,
    {
        let e = &entries[i];
        let live = match e.expires_at {
            None => true,
            Some(t) => t > now,
        };
        let ghost prev = entries_view(r@);
        let ghost prev_idx = idx;
        proof {
            assert(s[i as int] == e@);
        }
        if live {
            r.push(OverlayEntry { id: e.id, priority: e.priority, image: e.image.clone(), expires_at: e.expires_at });
            proof {
                idx = idx.push(i as int);
                assert(entries_view(r@) =~= prev.push(s[i as int]));
                assert forall|k: int| 0 <= k < i + 1 && is_live(#[trigger] s[k], now) implies exists|j: int| 0 <= j < idx.len() && idx[j] == k by {
                    if k < i {
                        let j = choose|j: int| 0 <= j < prev_idx.len() && prev_idx[j] == k;
                        assert(idx[j] == k);
                    } else {
                        assert(idx[prev_idx.len() as int] == k);
                    }
                }
            }
        }
        i = i + 1;
    }
    proof {
        lemma_picks_live(s, entries_view(r@), idx, now);
    }
    r
}

/// Every overlay of a slot that shows at the present time of the store's
/// clock, highest priority first.
pub fn live_overlays(store: &OverlayStore, device_id: &str, position: u8) -> (r: Vec<OverlayEntry>)
    ensures
        sorted_desc(entries_view(r@)),
        exists|now: u64|
            now >= store.latest_time() && #[trigger] lists_live(
                slot_of(store.view(), (device_id@, position)),
                entries_view(r@),
                now,
            ),
{
    let now = present_time(store);
    live_overlays_at(store, device_id, position, now)
}

/// Push an overlay image for a slot at time `now`; it replaces an overlay
/// of the same priority.  `duration_ms == 0` keeps it until cleared.
/// Returns the id of the push, for the expiry to name it.
pub fn push_overlay_at(store: &mut OverlayStore, device_id: &str, position: u8, image: String, priority: u8, duration_ms: u64, now: u64) -> (id: u64)
    ensures
        id == old(store).next_overlay_id(),
        final(store).next_overlay_id() == (if id == u64::MAX { 0 } else { (id + 1) as u64 }),
        final(store).view() == after_push(
            old(store).view(),
            (device_id@, position),
            pushed_entry(id, priority, image@, duration_ms, now),
        ),
        final(store).latest_time() == (if now > old(store).latest_time() { now } else { old(store).latest_time() }),
{
    proof {
        use_type_invariant(&*store);
    }
    let id = store.next_id;
    store.next_id = store.next_id.wrapping_add(1);
    if now > store.latest {
        store.latest = now;
    }
    let expires_at = if duration_ms > 0 {
        let span = if duration_ms > u64::MAX / NANOS_PER_MILLI { u64::MAX } else { duration_ms * NANOS_PER_MILLI };
        Some(now.saturating_add(span))
    } else {
        None
    };
    let entry = OverlayEntry { id, priority, image, expires_at };
    let key = (device_id.to_owned(), position);
    let mut entries = match overlay_get(&store.slots, &key) {
        Some(v) => v,
        None => Vec::new(),
    };
    let ghost s = entries_view(entries@);
    proof {
        if overlay_slots(store.slots).contains_key(slot_key(key)) {
            assert(slot_of(old(store).view(), (device_id@, position)) == entries_map(s));
        } else {
            assert(s =~= Seq::<OverlayEntryView>::empty());
            assert(slot_of(old(store).view(), (device_id@, position)) == entries_map(s));
        }
    }
    let mut i: usize = 0;
    while i < entries.len() && entries[i].priority > priority
        invariant
            i <= entries.len(),
            s == entries_view(entries@),
            forall|j: int| 0 <= j < i ==> #[trigger] s[j].priority > priority,
        decreases entries.len() - i,
    {
        i = i + 1;
    }
    let ghost e = entry@;
    if i < entries.len() && entries[i].priority == priority {
        entries.set(i, entry);
        proof {
            assert(entries_view(entries@) =~= s.update(i as int, e));
        }
    } else {
        entries.insert(i, entry);
        proof {
            assert(entries_view(entries@) =~= s.insert(i as int, e));
        }
    }
    proof {
        lemma_put_entry(s, e, i as int, entries_view(entries@));
    }
    let ghost t = entries_view(entries@);
    store_insert(store, key, entries);
    proof {
        let want = old(store).view().insert(
            (device_id@, position),
            slot_of(old(store).view(), (device_id@, position)).insert(priority, e),
        );
        assert(store.view() =~= want);
    }
    id
}

/// Push an overlay image for a slot at the present time of the store's
/// clock.  Returns the id of the push.
pub fn push_overlay(store: &mut OverlayStore, device_id: &str, position: u8, image: String, priority: u8, duration_ms: u64) -> (id: u64)
    ensures
        id == old(store).next_overlay_id(),
        final(store).next_overlay_id() == (if id == u64::MAX { 0 } else { (id + 1) as u64 }),
        exists|now: u64|
            now >= old(store).latest_time() && final(store).latest_time() == now && final(store).view() == after_push(
                old(store).view(),
                (device_id@, position),
                #[trigger] pushed_entry(id, priority, image@, duration_ms, now),
            ),
{
    let now = present_time(store);
    push_overlay_at(store, device_id, position, image, priority, duration_ms, now)
}

/// Remove the overlay that push `overlay_id` made at `priority`, if it is
/// still there.  Returns whether the slot should be rendered again: false
/// when a newer push holds that priority (or it is empty) in an existing
/// slot, true otherwise.
pub fn expire_overlay(store: &mut OverlayStore, device_id: &str, position: u8, priority: u8, overlay_id: u64) -> (rerender: bool)
    ensures
        final(store).next_overlay_id() == old(store).next_overlay_id(),
        final(store).latest_time() == old(store).latest_time(),
        rerender == expiry_rerenders(old(store).view(), (device_id@, position), priority, overlay_id),
        final(store).view() == after_expiry(old(store).view(), (device_id@, position), priority, overlay_id),
{
    proof {
        use_type_invariant(&*store);
    }
    let key = (device_id.to_owned(), position);
    let mut entries = match overlay_get(&store.slots, &key) {
        Some(v) => v,
        None => return true,
    };
    let ghost s = entries_view(entries@);
    proof {
        lemma_entries_map(s);
    }
    let mut i: usize = 0;
    while i < entries.len() && entries[i].priority != priority
        invariant
            i <= entries.len(),
            s == entries_view(entries@),
            forall|j: int| 0 <= j < i ==> #[trigger] s[j].priority != priority,
        decreases entries.len() - i,
    {
        i = i + 1;
    }
    if i < entries.len() && entries[i].id == overlay_id {
        let ghost removed = s[i as int];
        entries.remove(i);
        proof {
            assert(entries_view(entries@) =~= s.remove(i as int));
            lemma_drop_entry(s, i as int);
            assert(entries_map(s)[removed.priority] == removed);
        }
        store_insert(store, key, entries);
        proof {
            let k = (device_id@, position);
            assert(store.view() =~= old(store).view().insert(k, old(store).view()[k].remove(priority)));
        }
        true
    } else {
        proof {
            if i < entries.len() {
                assert(entries_map(s)[s[i as int].priority] == s[i as int]);
            } else {
                assert(!entries_map(s).contains_key(priority));
            }
        }
        false
    }
}

/// Whether push `id` still holds `priority` in the slot.
pub open spec fn push_in_place(
    m: Map<(Seq<char>, u8), Map<u8, OverlayEntryView>>,
    key: (Seq<char>, u8),
    priority: u8,
    id: u64,
) -> bool {
    m.contains_key(key) && m[key].contains_key(priority) && m[key][priority].id == id
}

/// Replace the image of the overlay that push `overlay_id` made at
/// `priority`, if that push is still in place; its id and expiry stay.
/// Returns whether it was still in place (false once another push replaced
/// it or it expired or was cleared).
pub fn update_overlay_image(store: &mut OverlayStore, device_id: &str, position: u8, priority: u8, overlay_id: u64, image: String) -> (updated: bool)
    ensures
        final(store).next_overlay_id() == old(store).next_overlay_id(),
        final(store).latest_time() == old(store).latest_time(),
        updated == push_in_place(old(store).view(), (device_id@, position), priority, overlay_id),
        updated ==> final(store).view() == old(store).view().insert(
            (device_id@, position),
            old(store).view()[(device_id@, position)].insert(
                priority,
                OverlayEntryView { image: image@, ..old(store).view()[(device_id@, position)][priority] },
            ),
        ),
        !updated ==> final(store).view() == old(store).view(),
{
    proof {
        use_type_invariant(&*store);
    }
    let key = (device_id.to_owned(), position);
    let mut entries = match overlay_get(&store.slots, &key) {
        Some(v) => v,
        None => return false,
    };
    let ghost s = entries_view(entries@);
    proof {
        lemma_entries_map(s);
        assert(overlay_slots(store.slots).contains_key(slot_key(key)));
    }
    let mut i: usize = 0;
    while i < entries.len() && entries[i].priority != priority
        invariant
            i <= entries.len(),
            s == entries_view(entries@),
            forall|j: int| 0 <= j < i ==> #[trigger] s[j].priority != priority,
        decreases entries.len() - i,
    {
        i = i + 1;
    }
    if i < entries.len() && entries[i].id == overlay_id {
        let kept_expiry = entries[i].expires_at;
        let ghost e = OverlayEntryView { image: image@, ..s[i as int] };
        let entry = OverlayEntry { id: overlay_id, priority, image, expires_at: kept_expiry };
        proof {
            assert(s[i as int] == entries@[i as int]@);
        }
        entries.set(i, entry);
        proof {
            assert(entries_view(entries@) =~= s.update(i as int, e));
            lemma_put_entry(s, e, i as int, entries_view(entries@));
            assert(entries_map(s)[s[i as int].priority] == s[i as int]);
        }
        store_insert(store, key, entries);
        proof {
            let k = (device_id@, position);
            assert(store.view() =~= old(store).view().insert(k, old(store).view()[k].insert(priority, e)));
        }
        true
    } else {
        proof {
            if i < entries.len() {
                assert(entries_map(s)[s[i as int].priority] == s[i as int]);
            } else {
                assert(!entries_map(s).contains_key(priority));
            }
        }
        false
    }
}

/// Remove all overlays of a device.
pub fn clear_device_overlays(store: &mut OverlayStore, device_id: &str)
    ensures
        final(store).next_overlay_id() == old(store).next_overlay_id(),
        final(store).latest_time() == old(store).latest_time(),
        final(store).view() == after_clear_device(old(store).view(), device_id@),
{
    store_retain_other_devices(store, device_id);
    proof {
        assert(store.view() =~= old(store).view().restrict(
            old(store).view().dom().filter(|k: (Seq<char>, u8)| k.0 != device_id@),
        ));
    }
}

/// Remove all overlays at one slot.
pub fn clear_position_overlays(store: &mut OverlayStore, device_id: &str, position: u8)
    ensures
        final(store).next_overlay_id() == old(store).next_overlay_id(),
        final(store).latest_time() == old(store).latest_time(),
        final(store).view() == old(store).view().remove((device_id@, position)),
{
    let key = (device_id.to_owned(), position);
    store_remove(store, &key);
    proof {
        assert(store.view() =~= old(store).view().remove((device_id@, position)));
    }
}

/// The image that a slot shows again once its overlays are gone: the image of
/// the current state of the instance stored at `position`, if it is a data
/// URI; anything else (no instance, no such state, a sentinel or a path)
/// clears the slot.
pub open spec fn stored_slot_image(infobar: Seq<Option<ActionInstance>>, position: u8) -> Option<Seq<char>> {
    if position < infobar.len() && infobar[position as int] is Some {
        let inst = infobar[position as int]->0;
        if inst.current_state < inst.states@.len() && has_prefix(inst.states@[inst.current_state as int].image@, "data:"@) {
            Some(inst.states@[inst.current_state as int].image@)
        } else {
            None
        }
    } else {
        None
    }
}

/// The image to render at an infobar slot when its overlays expire or are
/// cleared, taken from the stored profile.
pub fn stored_infobar_image(infobar: &Vec<Option<ActionInstance>>, position: u8) -> (r: Option<String>)
    ensures
        match r {
            Some(image) => stored_slot_image(infobar@, position) == Some(image@),
            None => stored_slot_image(infobar@, position) is None,
        },
{
    if (position as usize) < infobar.len() {
        match &infobar[position as usize] {
            Some(inst) => {
                if (inst.current_state as usize) < inst.states.len() {
                    let image = &inst.states[inst.current_state as usize].image;
                    if starts_with(image.as_str(), "data:") {
                        return Some(image.clone());
                    }
                }
                None
            },
            None => None,
        }
    } else {
        None
    }
}

/// Showing an overlay: right after a push at time `now`, the slot shows the
/// pushed image, unless a live overlay of higher priority is there.
pub proof fn law_push_then_show(
    before: Map<(Seq<char>, u8), Map<u8, OverlayEntryView>>,
    key: (Seq<char>, u8),
    id: u64,
    priority: u8,
    image: Seq<char>,
    duration_ms: u64,
    now: u64,
)
    requires
        duration_ms == 0 || now < u64::MAX,
        forall|q: u8|
            #[trigger] slot_of(before, key).contains_key(q) && q > priority ==> !is_live(slot_of(before, key)[q], now),
    ensures
        active_overlay(slot_of(after_push(before, key, pushed_entry(id, priority, image, duration_ms, now)), key), now)
            == Some(image),
{
    let after = after_push(before, key, pushed_entry(id, priority, image, duration_ms, now));
    let slot = slot_of(after, key);
    assert(slot == slot_of(before, key).insert(priority, pushed_entry(id, priority, image, duration_ms, now)));
    assert(slot.contains_key(priority) && is_live(slot[priority], now));
    assert forall|q: u8| slot.contains_key(q) && is_live(slot[q], now) implies q <= priority by {
        if q != priority && q > priority {
            assert(slot_of(before, key).contains_key(q));
        }
    }
    let c = choose|c: u8|
        slot.contains_key(c) && is_live(slot[c], now) && (forall|q: u8| slot.contains_key(q) && is_live(slot[q], now) ==> q <= c);
    assert(c <= priority && priority <= c);
}

/// Expiring a replaced push: once a newer push holds a priority, the expiry
/// of an older push at that priority changes nothing and asks for no render.
pub proof fn law_stale_expiry_keeps_newer_push(
    m: Map<(Seq<char>, u8), Map<u8, OverlayEntryView>>,
    key: (Seq<char>, u8),
    newer: OverlayEntryView,
    older_id: u64,
)
    requires
        newer.id != older_id,
    ensures
        !expiry_rerenders(after_push(m, key, newer), key, newer.priority, older_id),
        after_expiry(after_push(m, key, newer), key, newer.priority, older_id) == after_push(m, key, newer),
{
}

/// Expiring the latest push undoes it: the slot keeps every other priority
/// as it was before the push, and the priority of the push is empty.
pub proof fn law_expiry_undoes_push(
    m: Map<(Seq<char>, u8), Map<u8, OverlayEntryView>>,
    key: (Seq<char>, u8),
    entry: OverlayEntryView,
)
    ensures
        expiry_rerenders(after_push(m, key, entry), key, entry.priority, entry.id),
        after_expiry(after_push(m, key, entry), key, entry.priority, entry.id) == m.insert(
            key,
            slot_of(m, key).remove(entry.priority),
        ),
{
    let s = slot_of(m, key);
    assert(s.insert(entry.priority, entry).remove(entry.priority) =~= s.remove(entry.priority));
}

/// How long a push shows: one without a duration shows at every later
/// time; one with a duration shows until exactly that many milliseconds
/// have passed.
pub proof fn law_push_shows_for_its_duration(id: u64, priority: u8, image: Seq<char>, duration_ms: u64, now: u64, later: u64)
    requires
        now + duration_ms * NANOS_PER_MILLI <= u64::MAX,
    ensures
        duration_ms == 0 ==> is_live(pushed_entry(id, priority, image, duration_ms, now), later),
        duration_ms > 0 ==> (is_live(pushed_entry(id, priority, image, duration_ms, now), later) <==> later < now
            + duration_ms * NANOS_PER_MILLI),
{
}

/// One change of the overlay store: a push, the expiry of a push, or the
/// clearing of a slot or of a device.
pub enum OverlayChange {
    Push((Seq<char>, u8), OverlayEntryView),
    Expire((Seq<char>, u8), u8, u64),
    ClearSlot((Seq<char>, u8)),
    ClearDevice(Seq<char>),
}

/// The store after one change, as the functions that make it leave it.
pub open spec fn apply_overlay_change(
    m: Map<(Seq<char>, u8), Map<u8, OverlayEntryView>>,
    change: OverlayChange,
) -> Map<(Seq<char>, u8), Map<u8, OverlayEntryView>> {
    match change {
        OverlayChange::Push(key, entry) => after_push(m, key, entry),
        OverlayChange::Expire(key, priority, id) => after_expiry(m, key, priority, id),
        OverlayChange::ClearSlot(key) => m.remove(key),
        OverlayChange::ClearDevice(device) => after_clear_device(m, device),
    }
}

/// The store after a run of changes, in order.
pub open spec fn apply_overlay_changes(
    m: Map<(Seq<char>, u8), Map<u8, OverlayEntryView>>,
    changes: Seq<OverlayChange>,
) -> Map<(Seq<char>, u8), Map<u8, OverlayEntryView>>
    decreases changes.len(),
{
    if changes.len() == 0 {
        m
    } else {
        apply_overlay_change(apply_overlay_changes(m, changes.drop_last()), changes.last())
    }
}

/// Whether a change leaves push `id` at `priority` of slot `key` alone: it
/// is no push at that slot and priority, no expiry of that push, and no
/// clearing of that slot or of its device.
pub open spec fn spares_push(change: OverlayChange, key: (Seq<char>, u8), priority: u8, id: u64) -> bool {
    match change {
        OverlayChange::Push(k, e) => !(k == key && e.priority == priority),
        OverlayChange::Expire(k, p, i) => !(k == key && p == priority && i == id),
        OverlayChange::ClearSlot(k) => k != key,
        OverlayChange::ClearDevice(d) => d != key.0,
    }
}

/// Whether `entry` is in place at its priority of slot `key`.
pub open spec fn entry_in_place(m: Map<(Seq<char>, u8), Map<u8, OverlayEntryView>>, key: (Seq<char>, u8), entry: OverlayEntryView) -> bool {
    m.contains_key(key) && m[key].contains_key(entry.priority) && m[key][entry.priority] == entry
}

proof fn lemma_changes_keep_entry(
    m: Map<(Seq<char>, u8), Map<u8, OverlayEntryView>>,
    key: (Seq<char>, u8),
    entry: OverlayEntryView,
    changes: Seq<OverlayChange>,
)
    requires
        entry_in_place(m, key, entry),
        forall|i: int| 0 <= i < changes.len() ==> spares_push(#[trigger] changes[i], key, entry.priority, entry.id),
    ensures
        entry_in_place(apply_overlay_changes(m, changes), key, entry),
    decreases changes.len(),
{
    if changes.len() > 0 {
        let rest = changes.drop_last();
        assert forall|i: int| 0 <= i < rest.len() implies spares_push(#[trigger] rest[i], key, entry.priority, entry.id) by {
            assert(rest[i] == changes[i]);
        }
        lemma_changes_keep_entry(m, key, entry, rest);
        let before = apply_overlay_changes(m, rest);
        let last = changes.last();
        assert(spares_push(changes[changes.len() - 1], key, entry.priority, entry.id));
        assert(apply_overlay_changes(m, changes) == apply_overlay_change(before, last));
        match last {
            OverlayChange::Push(k, e) => {
                if k == key {
                    assert(slot_of(before, k) == before[key]);
                }
            },
            OverlayChange::Expire(k, p, i) => {},
            OverlayChange::ClearSlot(k) => {},
            OverlayChange::ClearDevice(d) => {
                assert(before.dom().filter(|k2: (Seq<char>, u8)| k2.0 != d).contains(key));
            },
        }
    }
}

/// An expiry removes exactly its own push, however many other changes came
/// between: pushes at other slots or priorities, expiries of other pushes
/// and clearings of other slots and devices leave the push in place, and
/// its expiry then asks for a render and empties its priority alone.
pub proof fn law_expiry_removes_its_push_after_other_changes(
    m: Map<(Seq<char>, u8), Map<u8, OverlayEntryView>>,
    key: (Seq<char>, u8),
    entry: OverlayEntryView,
    changes: Seq<OverlayChange>,
)
    requires
        forall|i: int| 0 <= i < changes.len() ==> spares_push(#[trigger] changes[i], key, entry.priority, entry.id),
    ensures
        entry_in_place(apply_overlay_changes(after_push(m, key, entry), changes), key, entry),
        expiry_rerenders(apply_overlay_changes(after_push(m, key, entry), changes), key, entry.priority, entry.id),
        after_expiry(apply_overlay_changes(after_push(m, key, entry), changes), key, entry.priority, entry.id)
            == apply_overlay_changes(after_push(m, key, entry), changes).insert(
            key,
            apply_overlay_changes(after_push(m, key, entry), changes)[key].remove(entry.priority),
        ),
{
    lemma_changes_keep_entry(after_push(m, key, entry), key, entry, changes);
}

/// A push shows from the clock time it is made at until its duration has
/// passed: at any later reading before then (and at any later reading for a
/// push without a duration) the listed live overlays of the slot hold the
/// pushed image with its id and priority, and the slot shows that image
/// unless a live overlay of higher priority is there.  The push and the
/// reads of the store's clock are tied by `latest_time`: `push_overlay`
/// makes its time the store's latest, and readers never read earlier.
pub proof fn law_push_shows_until_it_expires(
    before: Map<(Seq<char>, u8), Map<u8, OverlayEntryView>>,
    key: (Seq<char>, u8),
    id: u64,
    priority: u8,
    image: Seq<char>,
    duration_ms: u64,
    pushed_at: u64,
    read_at: u64,
    live: Seq<OverlayEntryView>,
)
    requires
        pushed_at <= read_at,
        duration_ms == 0 || read_at - pushed_at < duration_ms * NANOS_PER_MILLI,
        duration_ms == 0 || read_at < u64::MAX,
    ensures
        lists_live(slot_of(after_push(before, key, pushed_entry(id, priority, image, duration_ms, pushed_at)), key), live, read_at)
            ==> exists|j: int|
            0 <= j < live.len() && (#[trigger] live[j]).image == image && live[j].priority == priority && live[j].id == id,
        (forall|q: u8|
            #[trigger] slot_of(before, key).contains_key(q) && q > priority ==> !is_live(slot_of(before, key)[q], read_at))
            ==> active_overlay(
            slot_of(after_push(before, key, pushed_entry(id, priority, image, duration_ms, pushed_at)), key),
            read_at,
        ) == Some(image),
{
    let e = pushed_entry(id, priority, image, duration_ms, pushed_at);
    let slot = slot_of(after_push(before, key, e), key);
    assert(slot == slot_of(before, key).insert(priority, e));
    assert(is_live(e, read_at));
    assert(slot.contains_key(priority) && is_live(slot[priority], read_at));
    if lists_live(slot, live, read_at) {
        let j = choose|j: int| 0 <= j < live.len() && live[j].priority == priority;
        assert(slot[live[j].priority] == live[j]);
    }
    if forall|q: u8| #[trigger] slot_of(before, key).contains_key(q) && q > priority ==> !is_live(slot_of(before, key)[q], read_at) {
        assert forall|q: u8| slot.contains_key(q) && is_live(slot[q], read_at) implies q <= priority by {
            if q != priority && q > priority {
                assert(slot_of(before, key).contains_key(q));
            }
        }
        let c = choose|c: u8|
            slot.contains_key(c) && is_live(slot[c], read_at) && (forall|q: u8| slot.contains_key(q) && is_live(slot[q], read_at) ==> q <= c);
        assert(c <= priority && priority <= c);
    }
}

} // verus!
