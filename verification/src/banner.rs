//! The profile-banner plugin action: it derives the profile name from an
//! instance id and addresses an infobar overlay to the same profile.

use vstd::prelude::*;
use crate::text::{decimal, decimal_string, join_range, join_with, lemma_decimal_has_no_dot, lemma_split_nonempty, split_chars, split_on};

verus! {

/// The identifier under which the banner action is registered.
pub const PROFILE_BANNER_UUID: &'static str = "com.amansprojects.starterpack.infobar.profilebanner";

/// Settings of one banner instance.
pub struct ProfileBannerSettings {
    /// Which infobar position to push the overlay to.
    pub target_position: u8,
    /// How long to show the banner, in milliseconds.
    pub duration_ms: u64,
}

impl Default for ProfileBannerSettings {
    fn default() -> (r: Self)
        ensures
            r.target_position == 0,
            r.duration_ms == 3000,
    {
        ProfileBannerSettings { target_position: 0, duration_ms: 3000 }
    }
}

/// The banner action itself; it keeps no state.
pub struct ProfileBannerAction;

/// What the banner action asks the host to show when it appears.
pub struct BannerRequest {
    /// The profile name written on the banner.
    pub profile_name: String,
    /// The infobar instance id the overlay is addressed to.
    pub context: String,
    pub priority: u8,
    pub duration_ms: u64,
}

/// Instance ids read `device.profile.controller.position.index`; device ids
/// hold no dot, so the profile name is everything between the first piece and
/// the last three.
pub open spec fn profile_name_of(instance_id: Seq<char>) -> Seq<char> {
    let parts = split_on(instance_id, '.');
    if parts.len() >= 5 {
        join_with(parts.subrange(1, parts.len() - 3), '.')
    } else {
        "Profile"@
    }
}

/// The id of the infobar slot `position` (index 0) in the same device and
/// profile as `instance_id`; an id of fewer than five pieces is kept as is.
pub open spec fn infobar_context_of(instance_id: Seq<char>, position: u8) -> Seq<char> {
    let parts = split_on(instance_id, '.');
    if parts.len() >= 5 {
        join_with(
            parts.update(parts.len() - 3, "Infobar"@).update(parts.len() - 2, decimal(position as nat)).update(
                parts.len() - 1,
                "0"@,
            ),
            '.',
        )
    } else {
        instance_id
    }
}

/// The banner duration: a zero setting means the default of three seconds.
pub open spec fn effective_duration(duration_ms: u64) -> u64 {
    if duration_ms == 0 { 3000 } else { duration_ms }
}

/// Extract the profile name from an instance id.
pub fn extract_profile_name(instance_id: &str) -> (r: String)
    ensures
        r@ == profile_name_of(instance_id@),
{
    let parts = split_chars(instance_id, '.');
    let n = parts.len();
    if n >= 5 {
        join_range(&parts, 1, n - 3, '.')
    } else {
        "Profile".to_owned()
    }
}

/// The instance id of infobar slot `position` in the profile of `instance_id`.
pub fn make_infobar_context(instance_id: &str, position: u8) -> (r: String)
    ensures
        r@ == infobar_context_of(instance_id@, position),
{
    let mut parts = split_chars(instance_id, '.');
    let n = parts.len();
    if n >= 5 {
        let ghost before = parts@.map_values(|p: String| p@);
        parts.set(n - 3, "Infobar".to_owned());
        parts.set(n - 2, decimal_string(position as u64));
        parts.set(n - 1, "0".to_owned());
        let r = join_range(&parts, 0, n, '.');
        proof {
            let want = before.update(n - 3, "Infobar"@).update(n - 2, decimal(position as nat)).update(
                n - 1,
                "0"@,
            );
            assert(parts@.map_values(|p: String| p@).subrange(0, n as int) =~= want);
        }
        r
    } else {
        instance_id.to_owned()
    }
}

impl ProfileBannerAction {
    /// What to push when an instance appears: the banner for its profile, at
    /// priority 100, on the configured infobar slot, for the configured time.
    pub fn overlay_request(&self, instance_id: &str, settings: &ProfileBannerSettings) -> (r: BannerRequest)
        ensures
            r.profile_name@ == profile_name_of(instance_id@),
            r.context@ == infobar_context_of(instance_id@, settings.target_position),
            r.priority == 100,
            r.duration_ms == effective_duration(settings.duration_ms),
    {
        let duration_ms = if settings.duration_ms == 0 { 3000 } else { settings.duration_ms };
        BannerRequest {
            profile_name: extract_profile_name(instance_id),
            context: make_infobar_context(instance_id, settings.target_position),
            priority: 100,
            duration_ms,
        }
    }
}

pub proof fn lemma_split_pieces_have_no_sep(s: Seq<char>, sep: char)
    ensures
        forall|i: int| 0 <= i < split_on(s, sep).len() ==> !(#[trigger] split_on(s, sep)[i]).contains(sep),
    decreases s.len(),
{
    if s.len() > 0 {
        lemma_split_pieces_have_no_sep(s.drop_last(), sep);
        lemma_split_nonempty(s.drop_last(), sep);
        let rest = split_on(s.drop_last(), sep);
        if s.last() != sep {
            let grown = rest.last().push(s.last());
            assert forall|j: int| 0 <= j < grown.len() implies grown[j] != sep by {
                if j < rest.last().len() {
                    assert(grown[j] == rest.last()[j]);
                    assert(rest.last() == rest[rest.len() - 1]);
                }
            }
        }
    }
}

proof fn lemma_split_append_plain(a: Seq<char>, b: Seq<char>, sep: char)
    requires
        !b.contains(sep),
    ensures
        split_on(a + b, sep) == split_on(a, sep).update(
            split_on(a, sep).len() - 1,
            split_on(a, sep).last() + b,
        ),
    decreases b.len(),
{
    lemma_split_nonempty(a, sep);
    if b.len() == 0 {
        assert(a + b =~= a);
        assert(split_on(a, sep).last() + b =~= split_on(a, sep).last());
        assert(split_on(a, sep).update(split_on(a, sep).len() - 1, split_on(a, sep).last() + b) =~= split_on(a, sep));
    } else {
        let b2 = b.drop_last();
        assert(!b2.contains(sep)) by {
            if b2.contains(sep) {
                let k = choose|k: int| 0 <= k < b2.len() && b2[k] == sep;
                assert(b[k] == sep);
            }
        }
        lemma_split_append_plain(a, b2, sep);
        assert((a + b).drop_last() =~= a + b2);
        assert((a + b).last() == b.last());
        assert(b.last() != sep) by {
            assert(b[b.len() - 1] == b.last());
        }
        let s = split_on(a, sep);
        assert((s.last() + b2).push(b.last()) =~= s.last() + b);
    }
}

proof fn lemma_split_join(parts: Seq<Seq<char>>, sep: char)
    requires
        parts.len() >= 1,
        forall|i: int| 0 <= i < parts.len() ==> !(#[trigger] parts[i]).contains(sep),
    ensures
        split_on(join_with(parts, sep), sep) == parts,
    decreases parts.len(),
{
    if parts.len() == 1 {
        let e = Seq::<char>::empty();
        lemma_split_append_plain(e, parts[0], sep);
        assert(e + parts[0] =~= parts[0]);
        assert(split_on(e, sep) =~= seq![e]);
        assert(e + parts[0] =~= parts[0]);
        assert(seq![e].update(0, e + parts[0]) =~= parts);
    } else {
        let init = parts.drop_last();
        assert forall|i: int| 0 <= i < init.len() implies !(#[trigger] init[i]).contains(sep) by {
            assert(init[i] == parts[i]);
        }
        lemma_split_join(init, sep);
        let j = join_with(init, sep);
        let jp = j.push(sep);
        assert(jp.drop_last() =~= j);
        assert(split_on(jp, sep) == init.push(Seq::<char>::empty()));
        assert(!parts.last().contains(sep)) by {
            assert(parts[parts.len() - 1] == parts.last());
        }
        lemma_split_append_plain(jp, parts.last(), sep);
        let e = Seq::<char>::empty();
        assert(e + parts.last() =~= parts.last());
        assert(init.push(e).update(init.len() as int, e + parts.last()) =~= parts);
    }
}

/// Readdressing an instance id to an infobar slot keeps its profile: the name
/// the banner shows is the same whether it is read from the instance id or
/// from the infobar id made from it.
pub proof fn law_infobar_context_keeps_profile_name(instance_id: Seq<char>, position: u8)
    ensures
        profile_name_of(infobar_context_of(instance_id, position)) == profile_name_of(instance_id),
{
    let parts = split_on(instance_id, '.');
    if parts.len() >= 5 {
        let n = parts.len();
        reveal_strlit("Infobar");
        reveal_strlit("0");
        lemma_decimal_has_no_dot(position as nat);
        lemma_split_pieces_have_no_sep(instance_id, '.');
        let new_parts = parts.update(n - 3, "Infobar"@).update(n - 2, decimal(position as nat)).update(
            n - 1,
            "0"@,
        );
        assert forall|i: int| 0 <= i < new_parts.len() implies !(#[trigger] new_parts[i]).contains('.') by {
            if i < n - 3 {
                assert(new_parts[i] == parts[i]);
            } else if i == n - 3 {
                assert(new_parts[i] == "Infobar"@);
                assert(!"Infobar"@.contains('.')) by {
                    assert("Infobar"@ =~= seq!['I', 'n', 'f', 'o', 'b', 'a', 'r']);
                }
            } else if i == n - 2 {
                assert(new_parts[i] == decimal(position as nat));
            } else {
                assert(new_parts[i] == "0"@);
                assert("0"@ =~= seq!['0']);
            }
        }
        lemma_split_join(new_parts, '.');
        assert(new_parts.subrange(1, n - 3) =~= parts.subrange(1, n - 3));
    }
}

/// An id of fewer than five pieces is not an instance id; it is passed on
/// unchanged and its banner says "Profile".
pub proof fn law_short_ids_pass_through(instance_id: Seq<char>, position: u8)
    requires
        split_on(instance_id, '.').len() < 5,
    ensures
        infobar_context_of(instance_id, position) == instance_id,
        profile_name_of(instance_id) == "Profile"@,
{
}

} // verus!
