//! The sidebar arrangement: which profiles and hosts stand outside groups, and
//! which in each group.

use crate::config::{
    Config, ConfigModel, Group, GroupModel, Profile, ProfileModel, SshHost, SshHostModel,
};
use crate::ids::{drop_id, fresh_id, holds_id, is_random, without};
use crate::model::{lemma_push, models};
use crate::text::same_str;
use vstd::prelude::*;

verus! {

/// The ids of a list of profiles.
pub open spec fn profile_ids(s: Seq<ProfileModel>) -> Seq<u128> {
    s.map_values(|p: ProfileModel| p.id)
}

/// The ids of a list of hosts.
pub open spec fn host_ids(s: Seq<SshHostModel>) -> Seq<u128> {
    s.map_values(|h: SshHostModel| h.id)
}

/// The ids of all items: profiles first, then hosts.
pub open spec fn known(c: ConfigModel) -> Seq<u128> {
    profile_ids(c.profiles) + host_ids(c.ssh)
}

/// The items of a list of groups, in order.
pub open spec fn flat(groups: Seq<GroupModel>) -> Seq<u128>
    decreases groups.len(),
{
    if groups.len() == 0 {
        Seq::empty()
    } else {
        flat(groups.drop_last()) + groups.last().items
    }
}

/// Every id in the arrangement: those outside groups, then those in groups.
pub open spec fn arranged(c: ConfigModel) -> Seq<u128> {
    c.ungrouped + flat(c.groups)
}

/// The ids of `s` that are known and occur neither in `before` nor earlier in `s`.
pub open spec fn kept(s: Seq<u128>, known: Seq<u128>, before: Seq<u128>) -> Seq<u128>
    decreases s.len(),
{
    if s.len() == 0 {
        s
    } else {
        let rest = kept(s.drop_last(), known, before);
        let x = s.last();
        if known.contains(x) && !before.contains(x) && !s.drop_last().contains(x) {
            rest.push(x)
        } else {
            rest
        }
    }
}

/// The groups, each with the items that are known and occur neither in `before`
/// nor in an earlier group nor earlier in their own.
pub open spec fn kept_groups(
    groups: Seq<GroupModel>,
    known: Seq<u128>,
    before: Seq<u128>,
) -> Seq<GroupModel>
    decreases groups.len(),
{
    if groups.len() == 0 {
        groups
    } else {
        let rest = groups.drop_last();
        let g = groups.last();
        kept_groups(rest, known, before).push(
            GroupModel { items: kept(g.items, known, before + flat(rest)), ..g },
        )
    }
}

/// Where a group of that name first stands, or the length of the list.
pub open spec fn group_named(groups: Seq<GroupModel>, name: Seq<char>) -> int
    decreases groups.len(),
{
    if groups.len() == 0 || groups[0].name == name {
        0
    } else {
        1 + group_named(groups.drop_first(), name)
    }
}

/// Whether a host names a group and stands nowhere yet.
pub open spec fn waits(ungrouped: Seq<u128>, groups: Seq<GroupModel>, h: SshHostModel) -> bool {
    h.group is Some && !(ungrouped + flat(groups)).contains(h.id)
}

/// The groups with one more item in one of them.
pub open spec fn with_item(groups: Seq<GroupModel>, i: int, id: u128) -> Seq<GroupModel> {
    groups.update(i, GroupModel { items: groups[i].items.push(id), ..groups[i] })
}

/// The groups with a host in the first group that has the name it gives, or in
/// a new group of that name at the end.
pub open spec fn joined_by(groups: Seq<GroupModel>, h: SshHostModel, fresh: u128) -> Seq<GroupModel> {
    let i = group_named(groups, h.group->0);
    if 0 <= i < groups.len() {
        with_item(groups, i, h.id)
    } else {
        let g = GroupModel::fresh(fresh, h.group->0, false);
        groups.push(GroupModel { items: seq![h.id], ..g })
    }
}

/// How many new ids a host takes: one where it makes a group.
pub open spec fn takes(groups: Seq<GroupModel>, h: SshHostModel) -> int {
    if 0 <= group_named(groups, h.group->0) < groups.len() {
        0
    } else {
        1
    }
}

/// The groups with the hosts that wait for one, each joining in turn.
pub open spec fn adopted(
    ungrouped: Seq<u128>,
    groups: Seq<GroupModel>,
    hosts: Seq<SshHostModel>,
    fresh: Seq<u128>,
) -> Seq<GroupModel>
    decreases hosts.len(),
{
    if hosts.len() == 0 {
        groups
    } else if waits(ungrouped, groups, hosts[0]) {
        adopted(
            ungrouped,
            joined_by(groups, hosts[0], fresh[0]),
            hosts.drop_first(),
            fresh.skip(takes(groups, hosts[0])),
        )
    } else {
        adopted(ungrouped, groups, hosts.drop_first(), fresh)
    }
}

/// Whether a group is local, or becomes so because it holds profiles only.
pub open spec fn turns_local(g: GroupModel, profiles: Seq<u128>) -> bool {
    g.local || (g.items.len() > 0 && forall|i: int|
        0 <= i < g.items.len() ==> profiles.contains(#[trigger] g.items[i]))
}

/// The items of a group that are of its kind, or those that are not.
pub open spec fn of_kind(g: GroupModel, profiles: Seq<u128>, right: bool) -> Seq<u128> {
    let local = turns_local(g, profiles);
    g.items.filter(|x: u128| (profiles.contains(x) == local) == right)
}

/// A group with only the items of its kind.
pub open spec fn settled(g: GroupModel, profiles: Seq<u128>) -> GroupModel {
    GroupModel {
        local: turns_local(g, profiles),
        items: of_kind(g, profiles, true),
        ..g
    }
}

/// The groups, each with only the items of its kind.
pub open spec fn all_settled(groups: Seq<GroupModel>, profiles: Seq<u128>) -> Seq<GroupModel> {
    groups.map_values(|g: GroupModel| settled(g, profiles))
}

/// The items that leave their groups, in order.
pub open spec fn strays(groups: Seq<GroupModel>, profiles: Seq<u128>) -> Seq<u128>
    decreases groups.len(),
{
    if groups.len() == 0 {
        Seq::empty()
    } else {
        strays(groups.drop_last(), profiles) + of_kind(groups.last(), profiles, false)
    }
}

/// A host that waits for no group.
pub open spec fn placed_host(h: SshHostModel) -> SshHostModel {
    SshHostModel { group: None, ..h }
}

/// The config with a consistent arrangement; `fresh` gives the ids of new groups.
pub open spec fn normalized(c: ConfigModel, fresh: Seq<u128>) -> ConfigModel {
    let ids = known(c);
    let profiles = profile_ids(c.profiles);
    let loose = kept(c.ungrouped, ids, Seq::empty());
    let groups = adopted(loose, kept_groups(c.groups, ids, c.ungrouped), c.ssh, fresh);
    ConfigModel {
        ssh: c.ssh.map_values(|h: SshHostModel| placed_host(h)),
        ungrouped: loose + strays(groups, profiles) + kept(ids, ids, loose + flat(groups)),
        groups: all_settled(groups, profiles),
        ..c
    }
}

fn ids_of(profiles: &Vec<Profile>, hosts: &Vec<SshHost>) -> (r: (Vec<u128>, Vec<u128>))
    ensures
        r.0@ == profile_ids(models(profiles@)),
        r.1@ == profile_ids(models(profiles@)) + host_ids(models(hosts@)),
{
    let mut own: Vec<u128> = Vec::new();
    let mut i: usize = 0;
    while i < profiles.len()
        invariant
            i <= profiles@.len(),
            own@ == profile_ids(models(profiles@)).take(i as int),
        decreases profiles.len() - i,
    {
        own.push(profiles[i].id);
        assert(own@ =~= profile_ids(models(profiles@)).take(i + 1));
        i += 1;
    }
    assert(own@ =~= profile_ids(models(profiles@)));
    let mut all = own.clone();
    assert(all@ =~= own@);
    let mut j: usize = 0;
    while j < hosts.len()
        invariant
            j <= hosts@.len(),
            all@ == own@ + host_ids(models(hosts@)).take(j as int),
        decreases hosts.len() - j,
    {
        all.push(hosts[j].id);
        assert(all@ =~= own@ + host_ids(models(hosts@)).take(j + 1));
        j += 1;
    }
    assert(all@ =~= own@ + host_ids(models(hosts@)));
    (own, all)
}

/// Whether `seen` holds the known ids of `before` and no other.
spec fn tracks(seen: Seq<u128>, known: Seq<u128>, before: Seq<u128>) -> bool {
    forall|x: u128| #[trigger] seen.contains(x) == (known.contains(x) && before.contains(x))
}

pub proof fn lemma_contains_push(s: Seq<u128>, y: u128)
    ensures
        forall|x: u128| #[trigger] s.push(y).contains(x) == (s.contains(x) || x == y),
{
    assert forall|x: u128| #[trigger] s.push(y).contains(x) == (s.contains(x) || x == y) by {
        if s.contains(x) {
            let i = choose|i: int| 0 <= i < s.len() && s[i] == x;
            assert(s.push(y)[i] == x);
        }
        if x == y {
            assert(s.push(y)[s.len() as int] == x);
        }
    }
}

pub proof fn lemma_contains_add(a: Seq<u128>, b: Seq<u128>)
    ensures
        forall|x: u128| #[trigger] (a + b).contains(x) == (a.contains(x) || b.contains(x)),
{
    assert forall|x: u128| #[trigger] (a + b).contains(x) == (a.contains(x) || b.contains(x)) by {
        if a.contains(x) {
            let i = choose|i: int| 0 <= i < a.len() && a[i] == x;
            assert((a + b)[i] == x);
        }
        if b.contains(x) {
            let i = choose|i: int| 0 <= i < b.len() && b[i] == x;
            assert((a + b)[a.len() + i] == x);
        }
    }
}

fn keep(
    list: &Vec<u128>,
    known: &Vec<u128>,
    seen: &mut Vec<u128>,
    Ghost(before): Ghost<Seq<u128>>,
) -> (r: Vec<u128>)
    requires
        tracks(old(seen)@, known@, before),
    ensures
        r@ == kept(list@, known@, before),
        tracks(final(seen)@, known@, before + list@),
{
    let mut r: Vec<u128> = Vec::new();
    let mut i: usize = 0;
    proof {
        assert(list@.take(0) =~= Seq::<u128>::empty());
        assert(before + list@.take(0) =~= before);
    }
    while i < list.len()
        invariant
            i <= list@.len(),
            r@ == kept(list@.take(i as int), known@, before),
            tracks(seen@, known@, before + list@.take(i as int)),
        decreases list.len() - i,
    {
        let x = list[i];
        let ghost part = list@.take(i as int);
        proof {
            assert(list@.take(i + 1).drop_last() =~= part);
            assert(before + list@.take(i + 1) =~= (before + part).push(x));
            lemma_contains_add(before, part);
            lemma_contains_push(before + part, x);
            lemma_contains_push(seen@, x);
        }
        if holds_id(known, x) && !holds_id(seen, x) {
            seen.push(x);
            r.push(x);
        }
        i += 1;
    }
    assert(list@.take(i as int) =~= list@);
    r
}

proof fn lemma_group_named(groups: Seq<GroupModel>, name: Seq<char>, n: int)
    requires
        0 <= n <= groups.len(),
        forall|j: int| 0 <= j < n ==> (#[trigger] groups[j]).name != name,
        n < groups.len() ==> groups[n].name == name,
    ensures
        group_named(groups, name) == n,
    decreases n,
{
    if n > 0 {
        let rest = groups.drop_first();
        assert forall|j: int| 0 <= j < n - 1 implies (#[trigger] rest[j]).name != name by {
            assert(rest[j] == groups[j + 1]);
        }
        lemma_group_named(rest, name, n - 1);
    }
}

fn find_named(groups: &Vec<Group>, name: &str) -> (r: usize)
    ensures
        r == group_named(models(groups@), name@),
        r <= groups@.len(),
{
    let mut i: usize = 0;
    while i < groups.len() && !same_str(&groups[i].name, name)
        invariant
            i <= groups@.len(),
            forall|j: int| 0 <= j < i ==> (#[trigger] models(groups@)[j]).name != name@,
        decreases groups.len() - i,
    {
        i += 1;
    }
    proof {
        lemma_group_named(models(groups@), name@, i as int);
    }
    i
}

/// Adding an id to a group adds it to what the groups hold.
proof fn lemma_flat_item(groups: Seq<GroupModel>, i: int, id: u128, x: u128)
    requires
        0 <= i < groups.len(),
    ensures
        flat(with_item(groups, i, id)).contains(x) == (flat(groups).contains(x) || x == id),
    decreases groups.len(),
{
    let after = with_item(groups, i, id);
    let rest = groups.drop_last();
    let tail = groups.last().items;
    lemma_contains_add(flat(rest), tail);
    assert((flat(rest) + tail).contains(x) == (flat(rest).contains(x) || tail.contains(x)));
    if i == groups.len() - 1 {
        let items = tail.push(id);
        assert(after.drop_last() =~= rest);
        assert(flat(after) == flat(rest) + items);
        lemma_contains_push(tail, id);
        assert(items.contains(x) == (tail.contains(x) || x == id));
        lemma_contains_add(flat(rest), items);
        assert((flat(rest) + items).contains(x) == (flat(rest).contains(x) || items.contains(x)));
    } else {
        lemma_flat_item(rest, i, id, x);
        let front = flat(with_item(rest, i, id));
        assert(after.drop_last() =~= with_item(rest, i, id));
        assert(flat(after) == front + tail);
        lemma_contains_add(front, tail);
        assert((front + tail).contains(x) == (front.contains(x) || tail.contains(x)));
    }
}

/// Whether `seen` holds the ids that stand somewhere and no other.
spec fn marks(seen: Seq<u128>, ungrouped: Seq<u128>, groups: Seq<GroupModel>) -> bool {
    forall|x: u128| #[trigger]
        seen.contains(x) == (ungrouped.contains(x) || flat(groups).contains(x))
}

/// What `kept` keeps: the known ids of the list that do not occur before it.
pub proof fn lemma_kept(s: Seq<u128>, known: Seq<u128>, before: Seq<u128>)
    ensures
        forall|x: u128| #[trigger]
            kept(s, known, before).contains(x) == (s.contains(x) && known.contains(x)
                && !before.contains(x)),
    decreases s.len(),
{
    if s.len() > 0 {
        let rest = s.drop_last();
        lemma_kept(rest, known, before);
        assert(s =~= rest.push(s.last()));
        lemma_contains_push(rest, s.last());
        lemma_contains_push(kept(rest, known, before), s.last());
    }
}

/// What the kept groups hold.
pub proof fn lemma_kept_groups(groups: Seq<GroupModel>, known: Seq<u128>, before: Seq<u128>)
    ensures
        kept_groups(groups, known, before).len() == groups.len(),
        forall|x: u128| #[trigger]
            flat(kept_groups(groups, known, before)).contains(x) == (flat(groups).contains(x)
                && known.contains(x) && !before.contains(x)),
    decreases groups.len(),
{
    if groups.len() > 0 {
        let rest = groups.drop_last();
        let g = groups.last();
        lemma_kept_groups(rest, known, before);
        lemma_kept(g.items, known, before + flat(rest));
        lemma_contains_add(before, flat(rest));
        lemma_contains_add(flat(rest), g.items);
        let after = kept_groups(groups, known, before);
        assert(after.drop_last() =~= kept_groups(rest, known, before));
        lemma_contains_add(
            flat(kept_groups(rest, known, before)),
            kept(g.items, known, before + flat(rest)),
        );
    }
}

proof fn lemma_flat_take(groups: Seq<GroupModel>, i: int)
    requires
        0 <= i < groups.len(),
    ensures
        flat(groups.take(i + 1)) == flat(groups.take(i)) + groups[i].items,
{
    assert(groups.take(i + 1).drop_last() =~= groups.take(i));
}

fn all_profiles(items: &Vec<u128>, profiles: &Vec<u128>) -> (r: bool)
    ensures
        r == forall|i: int| 0 <= i < items@.len() ==> profiles@.contains(#[trigger] items@[i]),
{
    let mut i: usize = 0;
    while i < items.len()
        invariant
            i <= items@.len(),
            forall|j: int| 0 <= j < i ==> profiles@.contains(#[trigger] items@[j]),
        decreases items.len() - i,
    {
        if !holds_id(profiles, items[i]) {
            return false;
        }
        i += 1;
    }
    true
}

fn partition(items: &Vec<u128>, profiles: &Vec<u128>, local: bool) -> (r: (Vec<u128>, Vec<u128>))
    ensures
        r.0@ == items@.filter(|x: u128| (profiles@.contains(x) == local) == true),
        r.1@ == items@.filter(|x: u128| (profiles@.contains(x) == local) == false),
{
    let mut yes: Vec<u128> = Vec::new();
    let mut no: Vec<u128> = Vec::new();
    let mut i: usize = 0;
    proof {
        reveal(Seq::filter);
        assert(items@.take(0) =~= Seq::<u128>::empty());
    }
    while i < items.len()
        invariant
            i <= items@.len(),
            yes@ == items@.take(i as int).filter(
                |x: u128| (profiles@.contains(x) == local) == true,
            ),
            no@ == items@.take(i as int).filter(
                |x: u128| (profiles@.contains(x) == local) == false,
            ),
        decreases items.len() - i,
    {
        proof {
            reveal(Seq::filter);
            assert(items@.take(i + 1).drop_last() =~= items@.take(i as int));
        }
        let x = items[i];
        if holds_id(profiles, x) == local {
            yes.push(x);
        } else {
            no.push(x);
        }
        i += 1;
    }
    assert(items@.take(i as int) =~= items@);
    (yes, no)
}

impl Config {
    /// Keeps the sidebar arrangement consistent with the existing profiles and hosts: unknown or
    /// duplicate ids are dropped, new items are placed (in the group named by an imported host, if any).
    pub fn normalize(&mut self)
        ensures
            exists|fresh: Seq<u128>|
                final(self)@ == #[trigger] normalized(old(self)@, fresh) && fresh.len() == old(
                    self,
                )@.ssh.len() && forall|i: int|
                    0 <= i < fresh.len() ==> is_random(#[trigger] fresh[i]),
    {
        let mut fresh: Vec<u128> = Vec::new();
        let mut i: usize = 0;
        while i < self.ssh.len()
            invariant
                i <= self.ssh@.len(),
                fresh@.len() == i,
                forall|j: int| 0 <= j < i ==> is_random(#[trigger] fresh@[j]),
            decreases self.ssh.len() - i,
        {
            fresh.push(fresh_id());
            i += 1;
        }
        self.normalize_with(&fresh);
    }

    /// `normalize`, given the ids of the groups it may have to make.
    #[verifier::rlimit(30)]
    pub fn normalize_with(&mut self, fresh: &Vec<u128>)
        requires
            fresh@.len() >= old(self).ssh@.len(),
        ensures
            final(self)@ == normalized(old(self)@, fresh@),
    {
        let ghost c = self@;
        let (profiles, known) = ids_of(&self.profiles, &self.ssh);
        let mut seen: Vec<u128> = Vec::new();
        self.ungrouped = keep(&self.ungrouped, &known, &mut seen, Ghost(Seq::empty()));
        assert(Seq::<u128>::empty() + c.ungrouped =~= c.ungrouped);
        let ghost loose = self.ungrouped@;

        let mut i: usize = 0;
        let ghost ids = known@;
        proof {
            assert(c.groups.take(0) =~= Seq::empty());
            assert(c.ungrouped + flat(c.groups.take(0)) =~= c.ungrouped);
        }
        while i < self.groups.len()
            invariant
                i <= self.groups@.len(),
                known@ == ids,
                self.groups@.len() == c.groups.len(),
                forall|j: int| i <= j < c.groups.len() ==> (#[trigger] self.groups@[j])@ == c.groups[j],
                models(self.groups@).take(i as int) == kept_groups(
                    c.groups.take(i as int),
                    ids,
                    c.ungrouped,
                ),
                tracks(seen@, ids, c.ungrouped + flat(c.groups.take(i as int))),
                self.settings@ == c.settings,
                models(self.profiles@) == c.profiles,
                models(self.ssh@) == c.ssh,
                self.ungrouped@ == loose,
                crate::text::views(self.commands@) == c.commands,
                models(self.extra@) == c.extra,
                self.ssh@.len() <= fresh@.len(),
            decreases self.groups.len() - i,
        {
            let ghost before = models(self.groups@);
            let items = keep(
                &self.groups[i].items,
                &known,
                &mut seen,
                Ghost(c.ungrouped + flat(c.groups.take(i as int))),
            );
            self.groups[i].items = items;
            proof {
                let now = models(self.groups@);
                lemma_flat_take(c.groups, i as int);
                assert(c.ungrouped + flat(c.groups.take(i as int)) + c.groups[i as int].items
                    =~= c.ungrouped + flat(c.groups.take(i + 1)));
                assert(c.groups.take(i + 1).drop_last() =~= c.groups.take(i as int));
                assert(now.take(i + 1) =~= before.take(i as int).push(now[i as int]));
                assert(now.take(i + 1) =~= kept_groups(c.groups.take(i + 1), ids, c.ungrouped));
            }
            i += 1;
        }
        let ghost groups1 = models(self.groups@);
        proof {
            assert(c.groups.take(i as int) =~= c.groups);
            assert(groups1.take(i as int) =~= groups1);
            assert(groups1 == kept_groups(c.groups, ids, c.ungrouped));
            lemma_kept(c.ungrouped, ids, Seq::empty());
            lemma_kept_groups(c.groups, ids, c.ungrouped);
            lemma_contains_add(c.ungrouped, flat(c.groups));
            assert(marks(seen@, loose, groups1));
        }

        let mut h: usize = 0;
        let mut used: usize = 0;
        proof {
            assert(c.ssh.skip(0) =~= c.ssh);
            assert(fresh@.skip(0) =~= fresh@);
        }
        while h < self.ssh.len()
            invariant
                h <= self.ssh@.len(),
                used <= h,
                self.ssh@.len() == c.ssh.len(),
                self.ssh@.len() <= fresh@.len(),
                forall|j: int| 0 <= j < h ==> (#[trigger] self.ssh@[j])@ == placed_host(c.ssh[j]),
                forall|j: int| h <= j < c.ssh.len() ==> (#[trigger] self.ssh@[j])@ == c.ssh[j],
                adopted(
                    loose,
                    models(self.groups@),
                    c.ssh.skip(h as int),
                    fresh@.skip(used as int),
                ) == adopted(loose, groups1, c.ssh, fresh@),
                marks(seen@, loose, models(self.groups@)),
                self.settings@ == c.settings,
                models(self.profiles@) == c.profiles,
                self.ungrouped@ == loose,
                crate::text::views(self.commands@) == c.commands,
                models(self.extra@) == c.extra,
            decreases self.ssh.len() - h,
        {
            let ghost groups = models(self.groups@);
            let ghost rest = c.ssh.skip(h as int);
            proof {
                assert(rest[0] == c.ssh[h as int]);
                assert(rest.drop_first() =~= c.ssh.skip(h + 1));
                lemma_contains_add(loose, flat(groups));
            }
            let id = self.ssh[h].id;
            let name = self.ssh[h].group.take();
            assert(self.ssh@[h as int]@ =~= placed_host(c.ssh[h as int]));
            let ghost host = c.ssh[h as int];
            if let Some(name) = name {
                if !holds_id(&seen, id) {
                    assert(waits(loose, groups, host));
                    let index = find_named(&self.groups, name.as_str());
                    let ghost first = fresh@.skip(used as int)[0];
                    let ghost seqs = self.groups@;
                    if index < self.groups.len() {
                        self.groups[index].items.push(id);
                        proof {
                            let g = groups[index as int];
                            let g2 = GroupModel { items: g.items.push(id), ..g };
                            assert(self.groups@[index as int]@ =~= g2);
                            assert(models(self.groups@) =~= groups.update(index as int, g2));
                            assert(fresh@.skip(used as int).skip(0) =~= fresh@.skip(used as int));
                            assert(models(self.groups@) == joined_by(groups, host, first));
                        }
                    } else {
                        let mut group = Group::with_id(fresh[used], name.as_str(), false);
                        group.items.push(id);
                        self.groups.push(group);
                        proof {
                            let g = GroupModel::fresh(fresh@[used as int], name@, false);
                            let g2 = GroupModel { items: seq![id], ..g };
                            assert(group@ =~= g2);
                            lemma_push(seqs, group);
                            assert(fresh@.skip(used as int)[0] == fresh@[used as int]);
                            assert(fresh@.skip(used as int).skip(1) =~= fresh@.skip(used + 1));
                            assert(models(self.groups@) == joined_by(groups, host, first));
                        }
                        used += 1;
                    }
                    proof {
                        lemma_joined_by(groups, host, first);
                        lemma_contains_push(seen@, id);
                    }
                    let ghost earlier = seen@;
                    seen.push(id);
                    proof {
                        assert forall|x: u128| #[trigger] seen@.contains(x) == (loose.contains(x)
                            || flat(models(self.groups@)).contains(x)) by {
                            assert(earlier.push(id).contains(x) == (earlier.contains(x) || x
                                == id));
                            assert(flat(groups).contains(x) || !flat(groups).contains(x));
                        }
                    }
                }
            }
            h += 1;
        }
        let ghost groups2 = models(self.groups@);
        proof {
            assert(c.ssh.skip(h as int) =~= Seq::empty());
            assert(groups2 == adopted(loose, groups1, c.ssh, fresh@));
            assert(models(self.ssh@) =~= c.ssh.map_values(|h: SshHostModel| placed_host(h)));
        }

        let mut k: usize = 0;
        proof {
            assert(groups2.take(0) =~= Seq::empty());
            assert(loose + strays(groups2.take(0), profiles@) =~= loose);
        }
        while k < self.groups.len()
            invariant
                k <= self.groups@.len(),
                self.groups@.len() == groups2.len(),
                forall|j: int| 0 <= j < k ==> (#[trigger] self.groups@[j])@ == settled(groups2[j], profiles@),
                forall|j: int| k <= j < groups2.len() ==> (#[trigger] self.groups@[j])@ == groups2[j],
                self.ungrouped@ == loose + strays(groups2.take(k as int), profiles@),
                self.settings@ == c.settings,
                models(self.profiles@) == c.profiles,
                models(self.ssh@) == c.ssh.map_values(|h: SshHostModel| placed_host(h)),
                crate::text::views(self.commands@) == c.commands,
                models(self.extra@) == c.extra,
            decreases self.groups.len() - k,
        {
            let ghost g = groups2[k as int];
            let local = self.groups[k].local || (self.groups[k].items.len() > 0 && all_profiles(
                &self.groups[k].items,
                &profiles,
            ));
            assert(local == turns_local(g, profiles@));
            let (stay, mut leave) = partition(&self.groups[k].items, &profiles, local);
            proof {
                assert(stay@ == of_kind(g, profiles@, true));
                assert(leave@ == of_kind(g, profiles@, false));
                assert(groups2.take(k + 1).drop_last() =~= groups2.take(k as int));
            }
            self.groups[k].local = local;
            self.groups[k].items = stay;
            self.ungrouped.append(&mut leave);
            proof {
                assert(self.groups@[k as int]@ =~= settled(g, profiles@));
                assert(self.ungrouped@ =~= loose + strays(groups2.take(k + 1), profiles@));
            }
            k += 1;
        }
        proof {
            assert(groups2.take(k as int) =~= groups2);
            assert(models(self.groups@) =~= all_settled(groups2, profiles@));
            lemma_contains_add(loose, flat(groups2));
            lemma_kept(c.ungrouped, ids, Seq::empty());
            assert forall|i: int| 0 <= i < c.ssh.len() implies ids.contains(
                (#[trigger] c.ssh[i]).id,
            ) by {
                assert(ids[c.profiles.len() + i] == c.ssh[i].id);
            }
            lemma_adopted_known(loose, groups1, c.ssh, fresh@, ids);
        }
        let mut more = keep(&known, &known, &mut seen, Ghost(loose + flat(groups2)));
        self.ungrouped.append(&mut more);
    }

    /// Removes an item from wherever it is in the sidebar.
    pub fn unplace(&mut self, id: u128)
        ensures
            final(self)@ == unplaced(old(self)@, id),
    {
        let ghost c = self@;
        self.ungrouped = drop_id(&self.ungrouped, id);
        let mut i: usize = 0;
        while i < self.groups.len()
            invariant
                i <= self.groups@.len(),
                self.groups@.len() == c.groups.len(),
                forall|j: int|
                    0 <= j < i ==> (#[trigger] self.groups@[j])@ == less_item(c.groups[j], id),
                forall|j: int| i <= j < c.groups.len() ==> (#[trigger] self.groups@[j])@ == c.groups[j],
                self.settings@ == c.settings,
                models(self.profiles@) == c.profiles,
                models(self.ssh@) == c.ssh,
                self.ungrouped@ == without(c.ungrouped, id),
                crate::text::views(self.commands@) == c.commands,
                models(self.extra@) == c.extra,
            decreases self.groups.len() - i,
        {
            let items = drop_id(&self.groups[i].items, id);
            self.groups[i].items = items;
            assert(self.groups@[i as int]@ =~= less_item(c.groups[i as int], id));
            i += 1;
        }
        assert(self@ =~= unplaced(c, id));
    }
}

/// A group without an item.
pub open spec fn less_item(g: GroupModel, id: u128) -> GroupModel {
    GroupModel { items: without(g.items, id), ..g }
}

/// The groups without an item.
pub open spec fn groups_without(groups: Seq<GroupModel>, id: u128) -> Seq<GroupModel> {
    groups.map_values(|g: GroupModel| less_item(g, id))
}

/// The config with an item taken out of the arrangement.
pub open spec fn unplaced(c: ConfigModel, id: u128) -> ConfigModel {
    ConfigModel {
        ungrouped: without(c.ungrouped, id),
        groups: groups_without(c.groups, id),
        ..c
    }
}

/// Hosts are known: adopting them keeps the groups to known ids.
pub proof fn lemma_adopted_known(
    ungrouped: Seq<u128>,
    groups: Seq<GroupModel>,
    hosts: Seq<SshHostModel>,
    fresh: Seq<u128>,
    known: Seq<u128>,
)
    requires
        forall|x: u128| #[trigger] flat(groups).contains(x) ==> known.contains(x),
        forall|i: int| 0 <= i < hosts.len() ==> known.contains((#[trigger] hosts[i]).id),
    ensures
        forall|x: u128| #[trigger]
            flat(adopted(ungrouped, groups, hosts, fresh)).contains(x) ==> known.contains(x),
    decreases hosts.len(),
{
    if hosts.len() > 0 {
        let h = hosts[0];
        let rest = hosts.drop_first();
        assert(forall|i: int| 0 <= i < rest.len() ==> #[trigger] rest[i] == hosts[i + 1]);
        if waits(ungrouped, groups, h) {
            let after = joined_by(groups, h, fresh[0]);
            lemma_joined_by(groups, h, fresh[0]);
            assert forall|x: u128| #[trigger] flat(after).contains(x) implies known.contains(x) by {
                assert(flat(groups).contains(x) || x == h.id);
            }
            lemma_adopted_known(ungrouped, after, rest, fresh.skip(takes(groups, h)), known);
            assert(adopted(ungrouped, groups, hosts, fresh) == adopted(
                ungrouped,
                after,
                rest,
                fresh.skip(takes(groups, h)),
            ));
        } else {
            lemma_adopted_known(ungrouped, groups, rest, fresh, known);
            assert(adopted(ungrouped, groups, hosts, fresh) == adopted(
                ungrouped,
                groups,
                rest,
                fresh,
            ));
        }
    } else {
        assert(adopted(ungrouped, groups, hosts, fresh) == groups);
    }
}

/// A host that joins is in the groups, and nothing else changes in what they hold.
pub proof fn lemma_joined_by(groups: Seq<GroupModel>, h: SshHostModel, fresh: u128)
    ensures
        forall|x: u128|
            #![trigger flat(joined_by(groups, h, fresh)).contains(x)]
            #![trigger flat(groups).contains(x)]
            flat(joined_by(groups, h, fresh)).contains(x) == (flat(groups).contains(x) || x
                == h.id),
{
    let i = group_named(groups, h.group->0);
    let after = joined_by(groups, h, fresh);
    if 0 <= i < groups.len() {
        assert forall|x: u128| #[trigger]
            flat(after).contains(x) == (flat(groups).contains(x) || x == h.id) by {
            lemma_flat_item(groups, i, h.id, x);
        }
    } else {
        assert(after.drop_last() =~= groups);
        lemma_contains_add(flat(groups), seq![h.id]);
        assert(flat(after) == flat(groups) + seq![h.id]);
        assert forall|x: u128| #[trigger]
            flat(after).contains(x) == (flat(groups).contains(x) || x == h.id) by {
            assert(seq![h.id][0] == h.id);
            assert(seq![h.id].contains(x) == (x == h.id));
        }
    }
}

} // verus!
