use crate::error::{AppError, AppErrorView};
use crate::importing::{first_system_folder, insert_pos, lemma_insert_pos_at, lemma_stable_sort_len, stable_sort};
use crate::profile::{
    assign_orders, find_profile, has_system_folder, lemma_profile_pos, lemma_system_pos, ordered_profiles,
    profile_pos, profile_problem, system_pos, ConnectionProfile, Folder,
};
use crate::state::SessionState;
use crate::text::{uuid_string, uuid_text};
use vstd::prelude::*;

verus! {

// ─── Saving a profile ───────────────────────────────────

/// The largest display order of a list of profiles, 0 for an empty list.
pub open spec fn max_display_order(ps: Seq<ConnectionProfile>) -> int
    decreases ps.len(),
{
    if ps.len() == 0 {
        0
    } else if ps.len() == 1 {
        ps[0].display_order as int
    } else {
        let m = max_display_order(ps.drop_last());
        if ps.last().display_order > m {
            ps.last().display_order as int
        } else {
            m
        }
    }
}

/// Every display order is below `i32::MAX`, so that one more still fits.
pub open spec fn orders_below_max(ps: Seq<ConnectionProfile>) -> bool {
    forall|i: int| 0 <= i < ps.len() ==> (#[trigger] ps[i]).display_order < i32::MAX
}

/// The profile list after saving `p` at time `now`: an existing profile with
/// the same id is replaced (keeping its display order when `p` has order 0);
/// a new one goes last, after the largest display order, into the first
/// system folder when it names no folder.
pub open spec fn upsert_spec(ps: Seq<ConnectionProfile>, fs: Seq<Folder>, p: ConnectionProfile, now: i64) -> Seq<
    ConnectionProfile,
> {
    let p1 = ConnectionProfile { updated_at: now, ..p };
    match profile_pos(ps, p.id) {
        Some(i) => {
            let q = if p1.display_order == 0 && ps[i].display_order != 0 {
                p1.with_order(ps[i].display_order)
            } else {
                p1
            };
            ps.update(i, q)
        },
        None => {
            let q0 = ConnectionProfile { display_order: (max_display_order(ps) + 1) as i32, created_at: now, ..p1 };
            let q = if q0.folder_id is None && system_pos(fs) >= 0 {
                ConnectionProfile { folder_id: Some(fs[system_pos(fs)].id), ..q0 }
            } else {
                q0
            };
            ps.push(q)
        },
    }
}

proof fn lemma_max_display_order(ps: Seq<ConnectionProfile>)
    ensures
        ps.len() > 0 ==> exists|i: int| 0 <= i < ps.len() && max_display_order(ps) == ps[i].display_order,
        forall|i: int| 0 <= i < ps.len() ==> ps[i].display_order <= max_display_order(ps),
    decreases ps.len(),
{
    if ps.len() > 1 {
        lemma_max_display_order(ps.drop_last());
        assert forall|i: int| 0 <= i < ps.len() - 1 implies ps.drop_last()[i] == ps[i] by {}
        if ps.last().display_order <= max_display_order(ps.drop_last()) {
            let j = choose|j: int| 0 <= j < ps.len() - 1 && max_display_order(ps.drop_last()) == ps.drop_last()[j].display_order;
            assert(ps[j] == ps.drop_last()[j]);
        }
    }
}

/// The largest display order, 0 for an empty list.
fn largest_display_order(ps: &Vec<ConnectionProfile>) -> (r: i32)
    ensures
        r == max_display_order(ps@),
{
    if ps.len() == 0 {
        return 0;
    }
    let mut m: i32 = ps[0].display_order;
    let mut i: usize = 1;
    while i < ps.len()
        invariant
            1 <= i <= ps.len(),
            m == max_display_order(ps@.take(i as int)),
        decreases ps.len() - i,
    {
        proof {
            assert(ps@.take(i as int + 1).drop_last() =~= ps@.take(i as int));
            assert(ps@.take(i as int + 1).last() == ps@[i as int]);
        }
        if ps[i].display_order > m {
            m = ps[i].display_order;
        }
        i += 1;
    }
    proof {
        assert(ps@.take(ps@.len() as int) =~= ps@);
    }
    m
}

/// Saving a profile keeps the folder it names. A new profile is appended
/// with its own id, name, host and users and after every existing display
/// order (when those leave room); it stays in the folder it names, and only
/// one that names no folder goes into a system folder (when there is one).
/// An existing profile is replaced in place with the saved fields and its
/// folder, and the other profiles are untouched.
pub proof fn law_save_keeps_the_chosen_folder(ps: Seq<ConnectionProfile>, fs: Seq<Folder>, p: ConnectionProfile, now: i64)
    ensures
        profile_pos(ps, p.id) is None ==> {
            let r = upsert_spec(ps, fs, p, now);
            &&& r.len() == ps.len() + 1
            &&& r.take(ps.len() as int) == ps
            &&& r.last().id == p.id
            &&& r.last().name == p.name
            &&& r.last().host == p.host
            &&& r.last().users == p.users
            &&& r.last().created_at == now
            &&& r.last().updated_at == now
            &&& p.folder_id is Some ==> r.last().folder_id == p.folder_id
            &&& p.folder_id is None && has_system_folder(fs) ==> exists|j: int|
                0 <= j < fs.len() && (#[trigger] fs[j]).is_system && r.last().folder_id == Some(fs[j].id)
            &&& orders_below_max(ps) ==> forall|i: int| 0 <= i < ps.len() ==> (#[trigger] ps[i]).display_order
                < r.last().display_order
        },
        profile_pos(ps, p.id) matches Some(i) ==> {
            let r = upsert_spec(ps, fs, p, now);
            &&& r.len() == ps.len()
            &&& r[i].id == p.id
            &&& r[i].name == p.name
            &&& r[i].host == p.host
            &&& r[i].users == p.users
            &&& r[i].folder_id == p.folder_id
            &&& r[i].updated_at == now
            &&& forall|k: int| 0 <= k < ps.len() && k != i ==> #[trigger] r[k] == ps[k]
        },
{
    lemma_profile_pos(ps, p.id);
    lemma_system_pos(fs);
    lemma_max_display_order(ps);
    let r = upsert_spec(ps, fs, p, now);
    if profile_pos(ps, p.id) is None {
        assert(r.take(ps.len() as int) =~= ps);
        if p.folder_id is None && has_system_folder(fs) {
            let j0 = choose|j: int| 0 <= j < fs.len() && (#[trigger] fs[j]).is_system;
            assert(system_pos(fs) >= 0);
            assert(fs[system_pos(fs)].is_system);
        }
    }
}

/// Create or update a profile: it is validated first (the list is left
/// unchanged on failure), stamped with `now`, then stored as `upsert_spec`
/// says. Returns the profile's id.
pub fn save_profile_data(
    profiles: &mut Vec<ConnectionProfile>,
    folders: &Vec<Folder>,
    profile: ConnectionProfile,
    now: i64,
) -> (r: Result<u128, AppError>)
    requires
        profile_problem(profile) is None && profile_pos(old(profiles)@, profile.id) is None ==> orders_below_max(
            old(profiles)@,
        ),
    ensures
        match profile_problem(profile) {
            Some(m) => final(profiles)@ == old(profiles)@ && (r matches Err(AppError::ProfileError(s)) && s@ == m),
            None => r == Ok::<u128, AppError>(profile.id) && final(profiles)@ == upsert_spec(
                old(profiles)@,
                folders@,
                profile,
                now,
            ),
        },
{
    match profile.validate() {
        Err(e) => {
            return Err(e);
        },
        Ok(()) => {},
    }
    let mut p = profile;
    let id = p.id;
    p.updated_at = now;
    match find_profile(profiles, id) {
        Some(i) => {
            let existing_order = profiles[i].display_order;
            if p.display_order == 0 && existing_order != 0 {
                p.display_order = existing_order;
            }
            profiles.set(i, p);
        },
        None => {
            let m = largest_display_order(profiles);
            proof {
                lemma_max_display_order(old(profiles)@);
            }
            p.display_order = m + 1;
            p.created_at = now;
            if p.folder_id.is_none() {
                proof {
                    lemma_system_pos(folders@);
                }
                match first_system_folder(folders) {
                    Some(sid) => {
                        p.folder_id = Some(sid);
                    },
                    None => {},
                }
            }
            profiles.push(p);
        },
    }
    Ok(id)
}

// ─── Deleting a profile ─────────────────────────────────

/// A session as the profile commands see it.
pub struct ProfileSession {
    pub session_id: u128,
    pub profile_id: u128,
    pub state: SessionState,
}

/// Position of the first session of `profile_id` that is not disconnected,
/// or -1.
pub open spec fn active_session_pos(ss: Seq<ProfileSession>, profile_id: u128) -> int
    decreases ss.len(),
{
    if ss.len() == 0 {
        -1
    } else {
        let p = active_session_pos(ss.drop_last(), profile_id);
        if p >= 0 {
            p
        } else if ss.last().profile_id == profile_id && !(ss.last().state is Disconnected) {
            ss.len() - 1
        } else {
            -1
        }
    }
}

proof fn lemma_active_session_pos(ss: Seq<ProfileSession>, profile_id: u128)
    ensures
        -1 <= active_session_pos(ss, profile_id) < ss.len(),
    decreases ss.len(),
{
    if ss.len() > 0 {
        lemma_active_session_pos(ss.drop_last(), profile_id);
    }
}

/// A profile can be deleted only when none of its sessions is still open;
/// the error names the first such session.
pub fn check_no_active_session(sessions: &Vec<ProfileSession>, profile_id: u128) -> (r: Result<(), AppError>)
    ensures
        active_session_pos(sessions@, profile_id) < 0 ==> r is Ok,
        active_session_pos(sessions@, profile_id) >= 0 ==> (r matches Err(e) && e@ == AppErrorView::ProfileError(
            "Cannot delete profile: it has an active session ("@ + uuid_text(
                sessions@[active_session_pos(sessions@, profile_id)].session_id,
            ) + "). Disconnect first."@,
        )),
{
    proof {
        lemma_active_session_pos(sessions@, profile_id);
    }
    let mut i: usize = 0;
    while i < sessions.len()
        invariant
            0 <= i <= sessions@.len(),
            active_session_pos(sessions@.take(i as int), profile_id) == -1,
        decreases sessions.len() - i,
    {
        proof {
            assert(sessions@.take(i as int + 1).drop_last() =~= sessions@.take(i as int));
            assert(sessions@.take(i as int + 1).last() == sessions@[i as int]);
        }
        let s = &sessions[i];
        let open = match s.state {
            SessionState::Disconnected => false,
            _ => true,
        };
        if s.profile_id == profile_id && open {
            proof {
                lemma_active_prefix(sessions@, profile_id, i as int + 1);
            }
            let msg = "Cannot delete profile: it has an active session (".to_owned().concat(
                uuid_string(s.session_id).as_str(),
            ).concat("). Disconnect first.");
            return Err(AppError::ProfileError(msg));
        }
        i += 1;
    }
    proof {
        assert(sessions@.take(sessions@.len() as int) =~= sessions@);
    }
    Ok(())
}

/// Once a prefix holds an open session, the whole list reports the same one.
proof fn lemma_active_prefix(ss: Seq<ProfileSession>, profile_id: u128, k: int)
    requires
        0 <= k <= ss.len(),
        active_session_pos(ss.take(k), profile_id) >= 0,
    ensures
        active_session_pos(ss, profile_id) == active_session_pos(ss.take(k), profile_id),
    decreases ss.len() - k,
{
    if k < ss.len() {
        assert(ss.take(k + 1).drop_last() =~= ss.take(k));
        lemma_active_prefix(ss, profile_id, k + 1);
    } else {
        assert(ss.take(k) =~= ss);
    }
}

/// The list without the profiles that have this id.
pub open spec fn without_profile(ps: Seq<ConnectionProfile>, id: u128) -> Seq<ConnectionProfile> {
    ps.filter(|p: ConnectionProfile| p.id != id)
}

/// Remove every profile with this id; an error when there was none.
pub fn remove_profile(profiles: &mut Vec<ConnectionProfile>, profile_id: u128) -> (r: Result<(), AppError>)
    ensures
        final(profiles)@ == without_profile(old(profiles)@, profile_id),
        (exists|i: int| 0 <= i < old(profiles)@.len() && (#[trigger] old(profiles)@[i]).id == profile_id) ==> r is Ok,
        !(exists|i: int| 0 <= i < old(profiles)@.len() && (#[trigger] old(profiles)@[i]).id == profile_id) ==> (r matches Err(e)
            && e@ == AppErrorView::ProfileError("Profile not found: "@ + uuid_text(profile_id))),
{
    let ghost ps0 = profiles@;
    let ghost keep = |p: ConnectionProfile| p.id != profile_id;
    let ghost mut k: int = 0;
    let mut found = false;
    let mut i: usize = 0;
    proof {
        assert(ps0.take(0).filter(keep) =~= Seq::<ConnectionProfile>::empty());
        assert(profiles@.take(0) =~= Seq::<ConnectionProfile>::empty());
        assert(profiles@.skip(0) =~= ps0);
    }
    while i < profiles.len()
        invariant
            0 <= k <= ps0.len(),
            0 <= i <= profiles@.len(),
            keep == (|p: ConnectionProfile| p.id != profile_id),
            profiles@.take(i as int) == ps0.take(k).filter(keep),
            profiles@.skip(i as int) == ps0.skip(k),
            profiles@.len() - i == ps0.len() - k,
            found == exists|t: int| 0 <= t < k && (#[trigger] ps0[t]).id == profile_id,
        decreases profiles@.len() - i,
    {
        let ghost pre = profiles@;
        proof {
            assert(pre[i as int] == pre.skip(i as int)[0]);
            assert(ps0[k] == ps0.skip(k)[0]);
            assert(ps0.take(k + 1) =~= ps0.take(k).push(ps0[k]));
            ps0.take(k).lemma_filter_push(ps0[k], keep);
            assert forall|m: int| i + 1 <= m < pre.len() implies #[trigger] pre[m] == ps0[m - i + k] by {
                assert(pre[m] == pre.skip(i as int)[m - i]);
                assert(ps0[m - i + k] == ps0.skip(k)[m - i]);
            }
        }
        if profiles[i].id == profile_id {
            profiles.remove(i);
            found = true;
            proof {
                assert(profiles@.take(i as int) =~= pre.take(i as int));
                assert(profiles@.skip(i as int) =~= ps0.skip(k + 1));
                k = k + 1;
            }
        } else {
            proof {
                assert(profiles@.take(i as int + 1) =~= pre.take(i as int).push(pre[i as int]));
                assert(profiles@.skip(i as int + 1) =~= ps0.skip(k + 1));
                k = k + 1;
            }
            i += 1;
        }
    }
    proof {
        assert(profiles@.take(i as int) =~= profiles@);
        assert(ps0.take(k) =~= ps0);
    }
    if found {
        Ok(())
    } else {
        Err(AppError::ProfileError("Profile not found: ".to_owned().concat(uuid_string(profile_id).as_str())))
    }
}

// ─── Reordering all profiles ────────────────────────────

/// Order of profiles after a flat reorder: by display order.
pub open spec fn order_before(a: ConnectionProfile, b: ConnectionProfile) -> bool {
    a.display_order < b.display_order
}

/// The profile list after a flat reorder: each listed id's first profile
/// takes its (last) position in `ids` as display order, then the list is
/// sorted stably by display order.
pub open spec fn reorder_profiles_spec(ps: Seq<ConnectionProfile>, ids: Seq<u128>) -> Seq<ConnectionProfile> {
    stable_sort(ordered_profiles(ps, ids), |a: ConnectionProfile, b: ConnectionProfile| order_before(a, b))
}

/// Stable insertion sort of the profiles by display order, in place.
fn sort_by_display_order(v: &mut Vec<ConnectionProfile>)
    ensures
        final(v)@ == stable_sort(old(v)@, |a: ConnectionProfile, b: ConnectionProfile| order_before(a, b)),
{
    let ghost s = v@;
    let ghost before = |a: ConnectionProfile, b: ConnectionProfile| order_before(a, b);
    let mut i: usize = 0;
    proof {
        assert(s.take(0) =~= Seq::<ConnectionProfile>::empty());
        assert(v@.take(0) =~= Seq::<ConnectionProfile>::empty());
        assert(v@.skip(0) =~= s);
    }
    while i < v.len()
        invariant
            v@.len() == s.len(),
            0 <= i <= v@.len(),
            before == (|a: ConnectionProfile, b: ConnectionProfile| order_before(a, b)),
            v@.take(i as int) == stable_sort(s.take(i as int), before),
            v@.skip(i as int) == s.skip(i as int),
        decreases v@.len() - i,
    {
        let ghost placed = v@.take(i as int);
        proof {
            assert(v@[i as int] == v@.skip(i as int)[0]);
            assert(s[i as int] == s.skip(i as int)[0]);
        }
        proof {
            assert forall|m: int| i + 1 <= m < s.len() implies #[trigger] v@[m] == s[m] by {
                assert(v@[m] == v@.skip(i as int)[m - i]);
                assert(s[m] == s.skip(i as int)[m - i]);
            }
        }
        let x = v.remove(i);
        let ghost rest = v@;
        proof {
            assert(x == s[i as int]);
            assert(rest.take(i as int) =~= placed);
        }
        let xo = x.display_order;
        let mut p: usize = 0;
        while p < i
            invariant
                0 <= p <= i,
                i <= rest.len(),
                v@ == rest,
                rest.take(i as int) == placed,
                xo == x.display_order,
                before == (|a: ConnectionProfile, b: ConnectionProfile| order_before(a, b)),
                forall|j: int| 0 <= j < p ==> !before(x, #[trigger] placed[j]),
            ensures
                0 <= p <= i,
                forall|j: int| 0 <= j < p ==> !before(x, #[trigger] placed[j]),
                p == i || before(x, placed[p as int]),
            decreases i - p,
        {
            assert(placed[p as int] == rest[p as int]);
            if xo < v[p].display_order {
                break;
            }
            p += 1;
        }
        proof {
            lemma_stable_sort_len(s.take(i as int), before);
            lemma_insert_pos_at(placed, x, before, p as int);
            assert(s.take(i as int + 1).drop_last() =~= s.take(i as int));
            assert(s.take(i as int + 1).last() == x);
        }
        v.insert(p, x);
        proof {
            assert(v@.take(i as int + 1) =~= placed.insert(p as int, x));
            assert(v@.skip(i as int + 1) =~= s.skip(i as int + 1));
        }
        i += 1;
    }
    proof {
        assert(v@.take(v@.len() as int) =~= v@);
        assert(s.take(s.len() as int) =~= s);
    }
}

/// Flat reorder of all profiles: give each listed profile its position as
/// display order, then sort the list by display order (stably).
pub fn reorder_profiles(profiles: &mut Vec<ConnectionProfile>, profile_ids: &Vec<u128>)
    ensures
        final(profiles)@ == reorder_profiles_spec(old(profiles)@, profile_ids@),
{
    assign_orders(profiles, profile_ids);
    sort_by_display_order(profiles);
}

} // verus!
