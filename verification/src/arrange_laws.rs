//! What `normalize` promises: every item stands in the sidebar exactly once, in
//! a group of its kind or outside groups, and doing it again changes nothing.

use crate::arrange::{
    adopted, all_settled, arranged, flat, groups_without, host_ids, joined_by, kept, kept_groups,
    known, lemma_adopted_known, lemma_contains_add, lemma_contains_push, lemma_kept,
    lemma_kept_groups, normalized, of_kind, placed_host, profile_ids, settled, strays, takes,
    turns_local, unplaced, waits, with_item, group_named,
};
use crate::config::{ConfigModel, GroupModel, SshHostModel};
use crate::ids::without;
use vstd::prelude::*;

verus! {

/// How many times an id occurs in a list.
pub open spec fn times(s: Seq<u128>, x: u128) -> nat
    decreases s.len(),
{
    if s.len() == 0 {
        0
    } else {
        times(s.drop_last(), x) + (if s.last() == x {
            1nat
        } else {
            0
        })
    }
}

proof fn lemma_times_push(s: Seq<u128>, y: u128, x: u128)
    ensures
        times(s.push(y), x) == times(s, x) + (if x == y {
            1nat
        } else {
            0
        }),
{
    assert(s.push(y).drop_last() =~= s);
}

pub proof fn lemma_times_add(a: Seq<u128>, b: Seq<u128>, x: u128)
    ensures
        times(a + b, x) == times(a, x) + times(b, x),
    decreases b.len(),
{
    if b.len() == 0 {
        assert(a + b =~= a);
    } else {
        lemma_times_add(a, b.drop_last(), x);
        assert((a + b).drop_last() =~= a + b.drop_last());
    }
}

/// An id occurs in a list exactly when it occurs there at least once.
pub proof fn lemma_times(s: Seq<u128>, x: u128)
    ensures
        s.contains(x) == (times(s, x) > 0),
    decreases s.len(),
{
    if s.len() > 0 {
        lemma_times(s.drop_last(), x);
        lemma_contains_push(s.drop_last(), s.last());
        assert(s =~= s.drop_last().push(s.last()));
    }
}

proof fn lemma_times_filter(s: Seq<u128>, p: spec_fn(u128) -> bool, x: u128)
    ensures
        times(s.filter(p), x) == if p(x) {
            times(s, x)
        } else {
            0
        },
    decreases s.len(),
{
    reveal(Seq::filter);
    if s.len() > 0 {
        lemma_times_filter(s.drop_last(), p, x);
        if p(s.last()) {
            lemma_times_push(s.drop_last().filter(p), s.last(), x);
        }
    }
}

proof fn lemma_times_kept(s: Seq<u128>, ids: Seq<u128>, before: Seq<u128>, x: u128)
    ensures
        times(kept(s, ids, before), x) == if s.contains(x) && ids.contains(x) && !before.contains(
            x,
        ) {
            1nat
        } else {
            0
        },
    decreases s.len(),
{
    if s.len() > 0 {
        let rest = s.drop_last();
        lemma_times_kept(rest, ids, before, x);
        lemma_times_push(kept(rest, ids, before), s.last(), x);
        assert(s =~= rest.push(s.last()));
        lemma_contains_push(rest, s.last());
        assert(s.contains(x) == (rest.contains(x) || x == s.last()));
    }
}

proof fn lemma_times_kept_groups(
    groups: Seq<GroupModel>,
    ids: Seq<u128>,
    before: Seq<u128>,
    x: u128,
)
    ensures
        times(flat(kept_groups(groups, ids, before)), x) == if flat(groups).contains(x)
            && ids.contains(x) && !before.contains(x) {
            1nat
        } else {
            0
        },
    decreases groups.len(),
{
    if groups.len() > 0 {
        let rest = groups.drop_last();
        let g = groups.last();
        let items = kept(g.items, ids, before + flat(rest));
        lemma_times_kept_groups(rest, ids, before, x);
        lemma_times_kept(g.items, ids, before + flat(rest), x);
        let after = kept_groups(groups, ids, before);
        assert(after.drop_last() =~= kept_groups(rest, ids, before));
        lemma_times_add(flat(kept_groups(rest, ids, before)), items, x);
        lemma_contains_add(before, flat(rest));
        assert((before + flat(rest)).contains(x) == (before.contains(x) || flat(rest).contains(x)));
        lemma_contains_add(flat(rest), g.items);
        assert((flat(rest) + g.items).contains(x) == (flat(rest).contains(x) || g.items.contains(
            x,
        )));
    }
}

proof fn lemma_times_item(groups: Seq<GroupModel>, i: int, id: u128, x: u128)
    requires
        0 <= i < groups.len(),
    ensures
        times(flat(with_item(groups, i, id)), x) == times(flat(groups), x) + (if x == id {
            1nat
        } else {
            0
        }),
    decreases groups.len(),
{
    let after = with_item(groups, i, id);
    let rest = groups.drop_last();
    let tail = groups.last().items;
    lemma_times_add(flat(rest), tail, x);
    if i == groups.len() - 1 {
        assert(after.drop_last() =~= rest);
        lemma_times_push(tail, id, x);
        lemma_times_add(flat(rest), tail.push(id), x);
    } else {
        lemma_times_item(rest, i, id, x);
        assert(after.drop_last() =~= with_item(rest, i, id));
        lemma_times_add(flat(with_item(rest, i, id)), tail, x);
    }
}

proof fn lemma_times_joined(groups: Seq<GroupModel>, h: SshHostModel, fresh: u128, x: u128)
    ensures
        times(flat(joined_by(groups, h, fresh)), x) == times(flat(groups), x) + (if x == h.id {
            1nat
        } else {
            0
        }),
{
    let i = group_named(groups, h.group->0);
    if 0 <= i < groups.len() {
        lemma_times_item(groups, i, h.id, x);
    } else {
        let after = joined_by(groups, h, fresh);
        assert(after.drop_last() =~= groups);
        lemma_times_add(flat(groups), seq![h.id], x);
        assert(seq![h.id] =~= Seq::<u128>::empty().push(h.id));
        lemma_times_push(Seq::empty(), h.id, x);
    }
}

/// Adopting hosts takes no id away, and puts none where it stands already.
proof fn lemma_times_adopted(
    u: Seq<u128>,
    groups: Seq<GroupModel>,
    hosts: Seq<SshHostModel>,
    fresh: Seq<u128>,
    x: u128,
)
    requires
        times(u, x) + times(flat(groups), x) <= 1,
    ensures
        times(flat(groups), x) <= times(flat(adopted(u, groups, hosts, fresh)), x),
        times(u, x) + times(flat(adopted(u, groups, hosts, fresh)), x) <= 1,
    decreases hosts.len(),
{
    if hosts.len() > 0 {
        let h = hosts[0];
        if waits(u, groups, h) {
            lemma_times_joined(groups, h, fresh[0], x);
            lemma_times_add(u, flat(groups), x);
            lemma_times(u + flat(groups), x);
            lemma_times_adopted(
                u,
                joined_by(groups, h, fresh[0]),
                hosts.drop_first(),
                fresh.skip(takes(groups, h)),
                x,
            );
        } else {
            lemma_times_adopted(u, groups, hosts.drop_first(), fresh, x);
        }
    }
}

/// Settling the groups moves items out of them and loses none.
proof fn lemma_times_settled(groups: Seq<GroupModel>, profiles: Seq<u128>, x: u128)
    ensures
        times(flat(all_settled(groups, profiles)), x) + times(strays(groups, profiles), x) == times(
            flat(groups),
            x,
        ),
    decreases groups.len(),
{
    if groups.len() > 0 {
        let rest = groups.drop_last();
        let g = groups.last();
        let after = all_settled(groups, profiles);
        lemma_times_settled(rest, profiles, x);
        assert(after.drop_last() =~= all_settled(rest, profiles));
        let local = turns_local(g, profiles);
        lemma_times_filter(g.items, |y: u128| (profiles.contains(y) == local) == true, x);
        lemma_times_filter(g.items, |y: u128| (profiles.contains(y) == local) == false, x);
        lemma_times_add(flat(all_settled(rest, profiles)), of_kind(g, profiles, true), x);
        lemma_times_add(strays(rest, profiles), of_kind(g, profiles, false), x);
        lemma_times_add(flat(rest), g.items, x);
    }
}

/// After normalizing, every profile and every host stands in the arrangement
/// exactly once, and nothing else stands there.
pub proof fn law_every_item_once(c: ConfigModel, fresh: Seq<u128>, x: u128)
    ensures
        times(arranged(normalized(c, fresh)), x) == if known(c).contains(x) {
            1nat
        } else {
            0
        },
{
    let ids = known(c);
    let profiles = profile_ids(c.profiles);
    let loose = kept(c.ungrouped, ids, Seq::empty());
    let groups1 = kept_groups(c.groups, ids, c.ungrouped);
    let groups2 = adopted(loose, groups1, c.ssh, fresh);
    let more = kept(ids, ids, loose + flat(groups2));
    lemma_times_kept(c.ungrouped, ids, Seq::empty(), x);
    lemma_times_kept_groups(c.groups, ids, c.ungrouped, x);
    lemma_times_adopted(loose, groups1, c.ssh, fresh, x);
    lemma_kept(c.ungrouped, ids, Seq::empty());
    lemma_kept_groups(c.groups, ids, c.ungrouped);
    assert forall|i: int| 0 <= i < c.ssh.len() implies ids.contains((#[trigger] c.ssh[i]).id) by {
        assert(ids[c.profiles.len() + i] == c.ssh[i].id);
    }
    lemma_adopted_known(loose, groups1, c.ssh, fresh, ids);
    lemma_times(loose, x);
    lemma_times(flat(groups2), x);
    lemma_contains_add(loose, flat(groups2));
    assert((loose + flat(groups2)).contains(x) == (loose.contains(x) || flat(groups2).contains(x)));
    lemma_times_kept(ids, ids, loose + flat(groups2), x);
    lemma_times_settled(groups2, profiles, x);
    lemma_times_add(loose, strays(groups2, profiles), x);
    lemma_times_add(loose + strays(groups2, profiles), more, x);
    lemma_times_add(
        loose + strays(groups2, profiles) + more,
        flat(all_settled(groups2, profiles)),
        x,
    );
}

/// After normalizing, local groups hold profiles only and the others hold none.
pub proof fn law_groups_of_one_kind(c: ConfigModel, fresh: Seq<u128>, g: int, i: int)
    requires
        0 <= g < normalized(c, fresh).groups.len(),
        0 <= i < normalized(c, fresh).groups[g].items.len(),
    ensures
        profile_ids(c.profiles).contains(normalized(c, fresh).groups[g].items[i])
            == normalized(c, fresh).groups[g].local,
{
    let profiles = profile_ids(c.profiles);
    let loose = kept(c.ungrouped, known(c), Seq::empty());
    let groups2 = adopted(loose, kept_groups(c.groups, known(c), c.ungrouped), c.ssh, fresh);
    let local = turns_local(groups2[g], profiles);
    let p = |y: u128| (profiles.contains(y) == local) == true;
    lemma_filtered(groups2[g].items, p, i);
}

/// What a filter lets through satisfies it.
proof fn lemma_filtered(s: Seq<u128>, p: spec_fn(u128) -> bool, i: int)
    requires
        0 <= i < s.filter(p).len(),
    ensures
        p(s.filter(p)[i]),
    decreases s.len(),
{
    reveal(Seq::filter);
    if s.len() > 0 {
        if i < s.drop_last().filter(p).len() {
            lemma_filtered(s.drop_last(), p, i);
        }
    }
}

/// A filter that everything satisfies lets everything through.
proof fn lemma_filter_all(s: Seq<u128>, p: spec_fn(u128) -> bool)
    requires
        forall|i: int| 0 <= i < s.len() ==> p(#[trigger] s[i]),
    ensures
        s.filter(p) == s,
    decreases s.len(),
{
    reveal(Seq::filter);
    if s.len() > 0 {
        assert(p(s[s.len() - 1]));
        assert forall|i: int| 0 <= i < s.drop_last().len() implies p(#[trigger] s.drop_last()[i]) by {
            assert(s.drop_last()[i] == s[i]);
        }
        lemma_filter_all(s.drop_last(), p);
        assert(s =~= s.drop_last().push(s.last()));
    } else {
        assert(s.filter(p) =~= s);
    }
}

/// A filter that nothing satisfies lets nothing through.
proof fn lemma_filter_none(s: Seq<u128>, p: spec_fn(u128) -> bool)
    requires
        forall|i: int| 0 <= i < s.len() ==> !p(#[trigger] s[i]),
    ensures
        s.filter(p) == Seq::<u128>::empty(),
    decreases s.len(),
{
    reveal(Seq::filter);
    if s.len() > 0 {
        assert(!p(s[s.len() - 1]));
        assert forall|i: int| 0 <= i < s.drop_last().len() implies !p(
            #[trigger] s.drop_last()[i],
        ) by {
            assert(s.drop_last()[i] == s[i]);
        }
        lemma_filter_none(s.drop_last(), p);
    } else {
        assert(s.filter(p) =~= Seq::empty());
    }
}

/// Normalizing touches nothing but the arrangement: profiles, settings, saved
/// commands and unknown fields stay, hosts only lose the group they asked for.
pub proof fn law_normalize_keeps_the_rest(c: ConfigModel, fresh: Seq<u128>)
    ensures
        normalized(c, fresh).settings == c.settings,
        normalized(c, fresh).profiles == c.profiles,
        normalized(c, fresh).commands == c.commands,
        normalized(c, fresh).extra == c.extra,
        normalized(c, fresh).ssh.len() == c.ssh.len(),
        forall|i: int|
            0 <= i < c.ssh.len() ==> #[trigger] normalized(c, fresh).ssh[i] == placed_host(
                c.ssh[i],
            ),
{
}

/// The groups that adopting starts with stay in place, under their ids and names.
proof fn lemma_adopted_groups(
    u: Seq<u128>,
    groups: Seq<GroupModel>,
    hosts: Seq<SshHostModel>,
    fresh: Seq<u128>,
    i: int,
)
    requires
        0 <= i < groups.len(),
    ensures
        adopted(u, groups, hosts, fresh).len() >= groups.len(),
        adopted(u, groups, hosts, fresh)[i].id == groups[i].id,
        adopted(u, groups, hosts, fresh)[i].name == groups[i].name,
        adopted(u, groups, hosts, fresh)[i].collapsed == groups[i].collapsed,
        adopted(u, groups, hosts, fresh)[i].extra == groups[i].extra,
        groups[i].local ==> adopted(u, groups, hosts, fresh)[i].local,
    decreases hosts.len(),
{
    if hosts.len() > 0 {
        let h = hosts[0];
        if waits(u, groups, h) {
            lemma_adopted_groups(
                u,
                joined_by(groups, h, fresh[0]),
                hosts.drop_first(),
                fresh.skip(takes(groups, h)),
                i,
            );
        } else {
            lemma_adopted_groups(u, groups, hosts.drop_first(), fresh, i);
        }
    }
}

proof fn lemma_kept_group(groups: Seq<GroupModel>, ids: Seq<u128>, before: Seq<u128>, i: int)
    requires
        0 <= i < groups.len(),
    ensures
        kept_groups(groups, ids, before).len() == groups.len(),
        kept_groups(groups, ids, before)[i] == (GroupModel {
            items: kept(groups[i].items, ids, before + flat(groups.take(i))),
            ..groups[i]
        }),
    decreases groups.len(),
{
    let rest = groups.drop_last();
    if i < rest.len() {
        lemma_kept_group(rest, ids, before, i);
        assert(rest.take(i) =~= groups.take(i));
    } else {
        lemma_kept_groups(rest, ids, before);
        assert(rest =~= groups.take(i));
    }
}

/// No group disappears, moves or changes its name, and none stops being local.
pub proof fn law_groups_stay(c: ConfigModel, fresh: Seq<u128>, i: int)
    requires
        0 <= i < c.groups.len(),
    ensures
        normalized(c, fresh).groups.len() >= c.groups.len(),
        normalized(c, fresh).groups[i].id == c.groups[i].id,
        normalized(c, fresh).groups[i].name == c.groups[i].name,
        normalized(c, fresh).groups[i].collapsed == c.groups[i].collapsed,
        normalized(c, fresh).groups[i].extra == c.groups[i].extra,
        c.groups[i].local ==> normalized(c, fresh).groups[i].local,
{
    let loose = kept(c.ungrouped, known(c), Seq::empty());
    let groups1 = kept_groups(c.groups, known(c), c.ungrouped);
    lemma_kept_group(c.groups, known(c), c.ungrouped, i);
    lemma_adopted_groups(loose, groups1, c.ssh, fresh, i);
}

/// A list whose ids are all known, new and different is kept as it is.
proof fn lemma_kept_whole(s: Seq<u128>, ids: Seq<u128>, before: Seq<u128>)
    requires
        forall|x: u128| #[trigger] s.contains(x) ==> ids.contains(x) && !before.contains(x),
        forall|x: u128| #[trigger] times(s, x) <= 1,
    ensures
        kept(s, ids, before) == s,
    decreases s.len(),
{
    if s.len() > 0 {
        let rest = s.drop_last();
        let y = s.last();
        assert(s =~= rest.push(y));
        lemma_contains_push(rest, y);
        assert(s.contains(y));
        assert forall|x: u128| #[trigger] rest.contains(x) implies ids.contains(x)
            && !before.contains(x) by {
            assert(s.contains(x));
        }
        assert forall|x: u128| #[trigger] times(rest, x) <= 1 by {
            assert(times(s, x) <= 1);
        }
        lemma_times(rest, y);
        assert(times(s, y) <= 1);
        lemma_kept_whole(rest, ids, before);
    }
}

/// Groups whose ids are all known, new and different are kept as they are.
proof fn lemma_kept_groups_whole(groups: Seq<GroupModel>, ids: Seq<u128>, before: Seq<u128>)
    requires
        forall|x: u128| #[trigger]
            flat(groups).contains(x) ==> ids.contains(x) && !before.contains(x),
        forall|x: u128| #[trigger] times(flat(groups), x) <= 1,
    ensures
        kept_groups(groups, ids, before) == groups,
    decreases groups.len(),
{
    if groups.len() > 0 {
        let rest = groups.drop_last();
        let g = groups.last();
        lemma_contains_add(flat(rest), g.items);
        assert forall|x: u128| #[trigger] flat(rest).contains(x) implies ids.contains(x)
            && !before.contains(x) by {
            assert((flat(rest) + g.items).contains(x));
            assert(flat(groups).contains(x));
        }
        assert forall|x: u128| #[trigger] times(flat(rest), x) <= 1 by {
            lemma_times_add(flat(rest), g.items, x);
            assert(times(flat(groups), x) <= 1);
        }
        lemma_kept_groups_whole(rest, ids, before);
        lemma_contains_add(before, flat(rest));
        assert forall|x: u128| #[trigger] g.items.contains(x) implies ids.contains(x) && !(before
            + flat(rest)).contains(x) by {
            assert((flat(rest) + g.items).contains(x));
            assert(flat(groups).contains(x));
            lemma_times_add(flat(rest), g.items, x);
            lemma_times(flat(rest), x);
            lemma_times(g.items, x);
            assert(times(flat(groups), x) <= 1);
        }
        assert forall|x: u128| #[trigger] times(g.items, x) <= 1 by {
            lemma_times_add(flat(rest), g.items, x);
            assert(times(flat(groups), x) <= 1);
        }
        lemma_kept_whole(g.items, ids, before + flat(rest));
        assert(kept_groups(groups, ids, before) =~= rest.push(g));
        assert(groups =~= rest.push(g));
    }
}

/// Hosts that ask for no group leave the groups as they are.
proof fn lemma_nothing_to_adopt(
    u: Seq<u128>,
    groups: Seq<GroupModel>,
    hosts: Seq<SshHostModel>,
    fresh: Seq<u128>,
)
    requires
        forall|i: int| 0 <= i < hosts.len() ==> (#[trigger] hosts[i]).group is None,
    ensures
        adopted(u, groups, hosts, fresh) == groups,
    decreases hosts.len(),
{
    if hosts.len() > 0 {
        let rest = hosts.drop_first();
        assert forall|i: int| 0 <= i < rest.len() implies (#[trigger] rest[i]).group is None by {
            assert(rest[i] == hosts[i + 1]);
        }
        lemma_nothing_to_adopt(u, groups, rest, fresh);
    }
}

/// Groups of one kind each have nothing to settle.
proof fn lemma_settled_already(groups: Seq<GroupModel>, profiles: Seq<u128>)
    requires
        forall|g: int, i: int|
            0 <= g < groups.len() && 0 <= i < groups[g].items.len() ==> profiles.contains(
                #[trigger] groups[g].items[i],
            ) == groups[g].local,
    ensures
        all_settled(groups, profiles) == groups,
        strays(groups, profiles) == Seq::<u128>::empty(),
    decreases groups.len(),
{
    if groups.len() > 0 {
        let rest = groups.drop_last();
        let g = groups.last();
        assert forall|h: int, i: int|
            0 <= h < rest.len() && 0 <= i < rest[h].items.len() implies profiles.contains(
            #[trigger] rest[h].items[i],
        ) == rest[h].local by {
            assert(rest[h] == groups[h]);
            assert(profiles.contains(groups[h].items[i]) == groups[h].local);
        }
        lemma_settled_already(rest, profiles);
        let n = groups.len() - 1;
        assert forall|i: int| 0 <= i < g.items.len() implies profiles.contains(
            #[trigger] g.items[i],
        ) == g.local by {
            assert(profiles.contains(groups[n].items[i]) == groups[n].local);
        }
        if !g.local && g.items.len() > 0 {
            assert(!profiles.contains(g.items[0]));
        }
        let local = turns_local(g, profiles);
        assert(local == g.local);
        lemma_filter_all(g.items, |y: u128| (profiles.contains(y) == local) == true);
        lemma_filter_none(g.items, |y: u128| (profiles.contains(y) == local) == false);
        assert(settled(g, profiles) =~= g);
        assert(all_settled(groups, profiles) =~= all_settled(rest, profiles).push(g));
        assert(groups =~= rest.push(g));
        assert(strays(groups, profiles) =~= Seq::empty());
    } else {
        assert(all_settled(groups, profiles) =~= groups);
    }
}

/// Normalizing a config that was normalized changes nothing.
pub proof fn law_normalize_twice(c: ConfigModel, fresh: Seq<u128>, again: Seq<u128>)
    ensures
        normalized(normalized(c, fresh), again) == normalized(c, fresh),
{
    let n = normalized(c, fresh);
    let ids = known(c);
    let profiles = profile_ids(c.profiles);
    assert(known(n) =~= ids) by {
        assert(host_ids(n.ssh) =~= host_ids(c.ssh));
    }
    assert forall|x: u128| #[trigger] times(arranged(n), x) <= 1 by {
        law_every_item_once(c, fresh, x);
    }
    lemma_contains_add(n.ungrouped, flat(n.groups));
    assert forall|x: u128| #[trigger] n.ungrouped.contains(x) implies ids.contains(x)
        && !Seq::<u128>::empty().contains(x) by {
        law_every_item_once(c, fresh, x);
        lemma_times(arranged(n), x);
        assert(arranged(n).contains(x));
    }
    assert forall|x: u128| #[trigger] times(n.ungrouped, x) <= 1 by {
        lemma_times_add(n.ungrouped, flat(n.groups), x);
        assert(times(arranged(n), x) <= 1);
    }
    lemma_kept_whole(n.ungrouped, ids, Seq::empty());
    assert forall|x: u128| #[trigger] flat(n.groups).contains(x) implies ids.contains(x)
        && !n.ungrouped.contains(x) by {
        law_every_item_once(c, fresh, x);
        lemma_times(arranged(n), x);
        assert(arranged(n).contains(x));
        lemma_times_add(n.ungrouped, flat(n.groups), x);
        lemma_times(n.ungrouped, x);
        lemma_times(flat(n.groups), x);
    }
    assert forall|x: u128| #[trigger] times(flat(n.groups), x) <= 1 by {
        lemma_times_add(n.ungrouped, flat(n.groups), x);
        assert(times(arranged(n), x) <= 1);
    }
    lemma_kept_groups_whole(n.groups, ids, n.ungrouped);
    lemma_nothing_to_adopt(n.ungrouped, n.groups, n.ssh, again);
    assert forall|g: int, i: int|
        0 <= g < n.groups.len() && 0 <= i < n.groups[g].items.len() implies profiles.contains(
        #[trigger] n.groups[g].items[i],
    ) == n.groups[g].local by {
        law_groups_of_one_kind(c, fresh, g, i);
    }
    lemma_settled_already(n.groups, profiles);
    let more = kept(ids, ids, n.ungrouped + flat(n.groups));
    assert(more =~= Seq::<u128>::empty()) by {
        if more.len() > 0 {
            let x = more[0];
            assert(more.contains(x));
            lemma_kept(ids, ids, arranged(n));
            law_every_item_once(c, fresh, x);
            lemma_times(arranged(n), x);
        }
    }
    assert(n.ungrouped + Seq::<u128>::empty() + Seq::<u128>::empty() =~= n.ungrouped);
    assert(n.ssh.map_values(|h: SshHostModel| placed_host(h)) =~= n.ssh);
    assert(normalized(n, again) =~= n);
}

/// An item that was taken out of the arrangement stands nowhere, and every
/// other item stands as often as before.
pub proof fn law_unplaced(c: ConfigModel, id: u128, x: u128)
    ensures
        times(arranged(unplaced(c, id)), x) == if x == id {
            0
        } else {
            times(arranged(c), x)
        },
{
    let u = unplaced(c, id);
    lemma_times_without(c.ungrouped, id, x);
    lemma_times_unplaced_groups(c.groups, id, x);
    lemma_times_add(c.ungrouped, flat(c.groups), x);
    lemma_times_add(u.ungrouped, flat(u.groups), x);
}

proof fn lemma_times_without(s: Seq<u128>, id: u128, x: u128)
    ensures
        times(without(s, id), x) == if x == id {
            0
        } else {
            times(s, x)
        },
    decreases s.len(),
{
    reveal(Seq::filter);
    if s.len() > 0 {
        lemma_times_without(s.drop_last(), id, x);
        lemma_times_push(without(s.drop_last(), id), s.last(), x);
    }
}

proof fn lemma_times_unplaced_groups(groups: Seq<GroupModel>, id: u128, x: u128)
    ensures
        times(flat(groups_without(groups, id)), x) == if x == id {
            0
        } else {
            times(flat(groups), x)
        },
    decreases groups.len(),
{
    if groups.len() > 0 {
        let rest = groups.drop_last();
        let g = groups.last();
        lemma_times_unplaced_groups(rest, id, x);
        assert(groups_without(groups, id).drop_last() =~= groups_without(rest, id));
        lemma_times_without(g.items, id, x);
        lemma_times_add(flat(rest), g.items, x);
        lemma_times_add(flat(groups_without(rest, id)), without(g.items, id), x);
    }
}

} // verus!
