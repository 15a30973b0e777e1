//! Looking profiles, hosts and groups up by their id.

use crate::arrange::{host_ids, profile_ids};
use crate::config::{Group, GroupModel, Profile, ProfileModel, SshHost, SshHostModel};
use crate::ids::{lemma_place, lemma_place_is, place};
use crate::model::models;
use vstd::prelude::*;

verus! {

/// The ids of a list of groups.
pub open spec fn group_ids(s: Seq<GroupModel>) -> Seq<u128> {
    s.map_values(|g: GroupModel| g.id)
}

/// Where a profile stands in a list, or the length of the list.
pub open spec fn profile_place(s: Seq<ProfileModel>, id: u128) -> int {
    place(profile_ids(s), id)
}

/// Where a host stands in a list, or the length of the list.
pub open spec fn host_place(s: Seq<SshHostModel>, id: u128) -> int {
    place(host_ids(s), id)
}

/// Where a group stands in a list, or the length of the list.
pub open spec fn group_place(s: Seq<GroupModel>, id: u128) -> int {
    place(group_ids(s), id)
}

/// Whether a list holds the profile of an id.
pub open spec fn has_profile(s: Seq<ProfileModel>, id: u128) -> bool {
    profile_ids(s).contains(id)
}

/// Whether a list holds the host of an id.
pub open spec fn has_host(s: Seq<SshHostModel>, id: u128) -> bool {
    host_ids(s).contains(id)
}

/// Finds a profile.
pub fn find_profile(list: &Vec<Profile>, id: u128) -> (r: usize)
    ensures
        r == profile_place(models(list@), id),
        r <= list@.len(),
        (r < list@.len()) == has_profile(models(list@), id),
        r < list@.len() ==> list@[r as int].id == id,
{
    let ghost ids = profile_ids(models(list@));
    let mut i: usize = 0;
    while i < list.len() && list[i].id != id
        invariant
            i <= list@.len(),
            ids == profile_ids(models(list@)),
            forall|j: int| 0 <= j < i ==> #[trigger] ids[j] != id,
        decreases list.len() - i,
    {
        assert(ids[i as int] == list@[i as int].id);
        i += 1;
    }
    proof {
        assert(i < ids.len() ==> ids[i as int] == list@[i as int].id);
        lemma_place_is(ids, id, i as int);
        lemma_place(ids, id);
    }
    i
}

/// Finds a host.
pub fn find_host(list: &Vec<SshHost>, id: u128) -> (r: usize)
    ensures
        r == host_place(models(list@), id),
        r <= list@.len(),
        (r < list@.len()) == has_host(models(list@), id),
        r < list@.len() ==> list@[r as int].id == id,
{
    let ghost ids = host_ids(models(list@));
    let mut i: usize = 0;
    while i < list.len() && list[i].id != id
        invariant
            i <= list@.len(),
            ids == host_ids(models(list@)),
            forall|j: int| 0 <= j < i ==> #[trigger] ids[j] != id,
        decreases list.len() - i,
    {
        assert(ids[i as int] == list@[i as int].id);
        i += 1;
    }
    proof {
        assert(i < ids.len() ==> ids[i as int] == list@[i as int].id);
        lemma_place_is(ids, id, i as int);
        lemma_place(ids, id);
    }
    i
}

/// Finds a group.
pub fn find_group(list: &Vec<Group>, id: u128) -> (r: usize)
    ensures
        r == group_place(models(list@), id),
        r <= list@.len(),
        (r < list@.len()) == group_ids(models(list@)).contains(id),
        r < list@.len() ==> list@[r as int].id == id,
{
    let ghost ids = group_ids(models(list@));
    let mut i: usize = 0;
    while i < list.len() && list[i].id != id
        invariant
            i <= list@.len(),
            ids == group_ids(models(list@)),
            forall|j: int| 0 <= j < i ==> #[trigger] ids[j] != id,
        decreases list.len() - i,
    {
        assert(ids[i as int] == list@[i as int].id);
        i += 1;
    }
    proof {
        assert(i < ids.len() ==> ids[i as int] == list@[i as int].id);
        lemma_place_is(ids, id, i as int);
        lemma_place(ids, id);
    }
    i
}

} // verus!
