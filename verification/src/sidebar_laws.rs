//! What the sidebar shows, and where what is dragged in it goes.

use crate::arrange::{
    adopted, flat, group_named, joined_by, kept, known, lemma_contains_add, lemma_joined_by,
    normalized, placed_host, settled, takes, unplaced, waits,
};
use crate::config::{ConfigModel, GroupModel, SshHostModel};
use crate::find::{group_ids, group_place, has_host, has_profile};
use crate::ids::{lemma_place, lemma_without};
use crate::pane::Rect;
use crate::sidebar::{
    group_added, group_at, group_deleted, group_drop, group_moved, group_of, group_renamed,
    group_rows, group_set, group_toggled, holder, is_kind, item_drop, item_moved, item_rows,
    landing, list_of, move_targets, section_rows, with_new_group, Dragged, Drop, Mark, Point, Row,
};
use vstd::prelude::*;

verus! {

/// A list of groups finds the first that has an id.
pub proof fn law_group_found(groups: Seq<GroupModel>, id: u128, i: int)
    ensures
        0 <= group_place(groups, id) <= groups.len(),
        group_place(groups, id) < groups.len() ==> groups[group_place(groups, id)].id == id,
        0 <= i < groups.len() && groups[i].id == id ==> group_place(groups, id) <= i,
        0 <= i < group_place(groups, id) ==> groups[i].id != id,
{
    lemma_place(group_ids(groups), id);
    if 0 <= i < groups.len() {
        assert(group_ids(groups)[i] == groups[i].id);
    }
}

proof fn lemma_item_rows(c: ConfigModel, items: Seq<u128>, group: Option<usize>, local: bool, row: Row)
    ensures
        item_rows(c, items, group, local).contains(row) <==> (row matches Row::Item(g, x) && g
            == group && items.contains(x) && is_kind(c, x, local)),
    decreases items.len(),
{
    if items.len() > 0 {
        let rest = items.drop_last();
        let x = items.last();
        lemma_item_rows(c, rest, group, local, row);
        let rows = item_rows(c, rest, group, local);
        assert(items =~= rest.push(x));
        assert(forall|y: u128| items.contains(y) <==> rest.contains(y) || y == x) by {
            crate::arrange::lemma_contains_push(rest, x);
        }
        if is_kind(c, x, local) {
            let r = Row::Item(group, x);
            lemma_pushed(rows, r, row);
        }
    }
}

proof fn lemma_pushed(s: Seq<Row>, y: Row, x: Row)
    ensures
        s.push(y).contains(x) <==> s.contains(x) || x == y,
{
    let all = s.push(y);
    assert(all.last() == y);
    if s.contains(x) {
        let i = choose|i: int| 0 <= i < s.len() && s[i] == x;
        assert(all[i] == x);
    }
    if all.contains(x) && x != y {
        let i = choose|i: int| 0 <= i < all.len() && all[i] == x;
        assert(s[i] == x);
    }
}

proof fn lemma_summed(a: Seq<Row>, b: Seq<Row>, x: Row)
    ensures
        (a + b).contains(x) <==> a.contains(x) || b.contains(x),
{
    if a.contains(x) {
        let i = choose|i: int| 0 <= i < a.len() && a[i] == x;
        assert((a + b)[i] == x);
    }
    if b.contains(x) {
        let i = choose|i: int| 0 <= i < b.len() && b[i] == x;
        assert((a + b)[a.len() + i] == x);
    }
    if (a + b).contains(x) {
        let i = choose|i: int| 0 <= i < (a + b).len() && (a + b)[i] == x;
        if i < a.len() {
            assert(a[i] == x);
        } else {
            assert(b[i - a.len()] == x);
        }
    }
}

proof fn lemma_group_rows(c: ConfigModel, n: nat, local: bool, row: Row)
    requires
        n <= c.groups.len() <= usize::MAX,
    ensures
        group_rows(c, n, local).contains(row) <==> match row {
            Row::Group(gi) => gi < n && c.groups[gi as int].local == local,
            Row::Item(Some(gi), x) => gi < n && c.groups[gi as int].local == local
                && !c.groups[gi as int].collapsed && c.groups[gi as int].items.contains(x)
                && is_kind(c, x, local),
            Row::Item(None, _) => false,
        },
    decreases n,
{
    if n > 0 {
        lemma_group_rows(c, (n - 1) as nat, local, row);
        let rest = group_rows(c, (n - 1) as nat, local);
        let g = c.groups[n - 1];
        let head = Row::Group((n - 1) as usize);
        lemma_pushed(rest, head, row);
        lemma_item_rows(c, g.items, Some((n - 1) as usize), local, row);
        lemma_summed(
            rest.push(head),
            item_rows(c, g.items, Some((n - 1) as usize), local),
            row,
        );
    }
}

/// Each part of the sidebar shows what is of its kind: profiles in the one, hosts in the
/// other. What stands outside groups is shown, every group is, and what a group holds is
/// unless it is collapsed.
pub proof fn law_rows_shown(c: ConfigModel, local: bool, row: Row)
    requires
        c.groups.len() <= usize::MAX,
    ensures
        section_rows(c, local).contains(row) <==> match row {
            Row::Group(gi) => gi < c.groups.len() && c.groups[gi as int].local == local,
            Row::Item(Some(gi), x) => gi < c.groups.len() && c.groups[gi as int].local == local
                && !c.groups[gi as int].collapsed && c.groups[gi as int].items.contains(x) && if local {
                has_profile(c.profiles, x)
            } else {
                has_host(c.ssh, x)
            },
            Row::Item(None, x) => c.ungrouped.contains(x) && if local {
                has_profile(c.profiles, x)
            } else {
                has_host(c.ssh, x)
            },
        },
{
    lemma_item_rows(c, c.ungrouped, None, local, row);
    lemma_group_rows(c, c.groups.len(), local, row);
    lemma_summed(
        item_rows(c, c.ungrouped, None, local),
        group_rows(c, c.groups.len(), local),
        row,
    );
}

proof fn lemma_item_drop(
    c: ConfigModel,
    id: u128,
    p: Point,
    rows: Seq<(Row, Rect)>,
    from: int,
    above: Option<usize>,
)
    requires
        0 <= from,
        rows.len() <= usize::MAX,
    ensures
        match item_drop(c, id, p, rows, from, above) {
            (Drop::Item { id: x, group, before }, mark) => {
                &&& x == id
                &&& before matches Some(b) ==> b != id && (mark matches Mark::Above(k) && from <= k
                    < rows.len() && (rows[k as int].0 matches Row::Item(g, other) && other == b
                    && 2 * p.y < rows[k as int].1.top + rows[k as int].1.bottom && group
                    == match g {
                    Some(gi) => Some(c.groups[gi as int].id),
                    None => None,
                }))
                &&& mark matches Mark::Into(k) ==> before is None && from <= k < rows.len() && (
                rows[k as int].0 matches Row::Group(gi) && group == Some(c.groups[gi as int].id)
                    && rows[k as int].1.left <= p.x <= rows[k as int].1.right
                    && rows[k as int].1.top <= p.y <= rows[k as int].1.bottom)
                &&& mark is Below ==> before is None
            },
            _ => false,
        },
    decreases rows.len() - from,
{
    if from < rows.len() {
        match rows[from].0 {
            Row::Item(g, other) => {
                lemma_item_drop(c, id, p, rows, from + 1, above);
            },
            Row::Group(gi) => {
                lemma_item_drop(c, id, p, rows, from + 1, Some(gi));
            },
        }
    }
}

/// A dragged item lands before the item in whose upper half it is let go, in the group of
/// that item, or at the end of the group whose title it is let go on.
pub proof fn law_item_lands(c: ConfigModel, id: u128, p: Point, rows: Seq<(Row, Rect)>)
    requires
        rows.len() <= usize::MAX,
    ensures
        match landing(c, Dragged::Item(id), p, rows) {
            (Drop::Item { id: x, group, before }, mark) => {
                &&& x == id
                &&& before matches Some(b) ==> b != id && (mark matches Mark::Above(k) && k
                    < rows.len() && (rows[k as int].0 matches Row::Item(g, other) && other == b
                    && 2 * p.y < rows[k as int].1.top + rows[k as int].1.bottom && group
                    == match g {
                    Some(gi) => Some(c.groups[gi as int].id),
                    None => None,
                }))
                &&& mark matches Mark::Into(k) ==> before is None && k < rows.len() && (
                rows[k as int].0 matches Row::Group(gi) && group == Some(c.groups[gi as int].id)
                    && rows[k as int].1.left <= p.x <= rows[k as int].1.right
                    && rows[k as int].1.top <= p.y <= rows[k as int].1.bottom)
                &&& mark is Below ==> before is None
            },
            _ => false,
        },
        rows.len() > 0 && (rows[0].0 matches Row::Item(_, other) && other != id && 2 * p.y
            < rows[0].1.top + rows[0].1.bottom) ==> landing(c, Dragged::Item(id), p, rows).1
            == Mark::Above(0),
        rows.len() == 0 ==> landing(c, Dragged::Item(id), p, rows).0 == (Drop::Item {
            id,
            group: None,
            before: None,
        }),
{
    lemma_item_drop(c, id, p, rows, 0, None);
}

proof fn lemma_group_drop(c: ConfigModel, id: u128, p: Point, rows: Seq<(Row, Rect)>, from: int)
    requires
        0 <= from,
        rows.len() <= usize::MAX,
    ensures
        match group_drop(c, id, p, rows, from) {
            (Drop::Group { id: x, before }, mark) => {
                &&& x == id
                &&& before matches Some(b) ==> b != id && (mark matches Mark::Above(k) && from <= k
                    < rows.len() && (rows[k as int].0 matches Row::Group(gi) && c.groups[gi as int].id
                    == b && 2 * p.y < rows[k as int].1.top + rows[k as int].1.bottom))
                &&& before is None ==> forall|k: int|
                    from <= k < rows.len() && ((#[trigger] rows[k]).0 matches Row::Group(gi)
                        && c.groups[gi as int].id != id) ==> 2 * p.y >= rows[k].1.top
                        + rows[k].1.bottom
            },
            _ => false,
        },
    decreases rows.len() - from,
{
    if from < rows.len() {
        lemma_group_drop(c, id, p, rows, from + 1);
    }
}

/// A dragged group lands before the group in the upper half of whose title it is let go, and
/// last where it is below them all.
pub proof fn law_group_lands(c: ConfigModel, id: u128, p: Point, rows: Seq<(Row, Rect)>)
    requires
        rows.len() <= usize::MAX,
    ensures
        match landing(c, Dragged::Group(id), p, rows) {
            (Drop::Group { id: x, before }, mark) => {
                &&& x == id
                &&& before matches Some(b) ==> b != id && (mark matches Mark::Above(k) && k
                    < rows.len() && (rows[k as int].0 matches Row::Group(gi) && c.groups[gi as int].id
                    == b && 2 * p.y < rows[k as int].1.top + rows[k as int].1.bottom))
                &&& before is None ==> forall|k: int|
                    0 <= k < rows.len() && ((#[trigger] rows[k]).0 matches Row::Group(gi)
                        && c.groups[gi as int].id != id) ==> 2 * p.y >= rows[k].1.top
                        + rows[k].1.bottom
            },
            _ => false,
        },
{
    lemma_group_drop(c, id, p, rows, 0);
}

/// An item that is dropped at the end of a list comes last in it.
pub proof fn law_item_dropped_last(c: ConfigModel, item: u128, group: Option<u128>)
    ensures
        ({
            let list = list_of(item_moved(c, item, group, None), group);
            list.len() > 0 && list.last() == item
        }),
        group is None ==> item_moved(c, item, group, None).ungrouped.last() == item,
{
    let u = unplaced(c, item);
    assert(group_ids(u.groups) =~= group_ids(c.groups));
    let r = item_moved(c, item, group, None);
    if let Some(g) = group {
        law_group_found(u.groups, g, 0);
        assert(group_ids(r.groups) =~= group_ids(u.groups));
    }
}

/// Moving an item changes where items stand, and nothing else.
pub proof fn law_item_moved_keeps(
    c: ConfigModel,
    item: u128,
    group: Option<u128>,
    before: Option<u128>,
    i: int,
)
    requires
        0 <= i < c.groups.len(),
    ensures
        ({
            let r = item_moved(c, item, group, before);
            &&& r.profiles == c.profiles && r.ssh == c.ssh && r.settings == c.settings && r.commands
                == c.commands
            &&& r.groups.len() == c.groups.len()
            &&& r.groups[i].id == c.groups[i].id && r.groups[i].name == c.groups[i].name
                && r.groups[i].collapsed == c.groups[i].collapsed && r.groups[i].local
                == c.groups[i].local
        }),
{
    if let Some(g) = group {
        law_group_found(unplaced(c, item).groups, g, i);
    }
}

/// A group that is moved stands directly before the other one, or last; the others stay in
/// their order.
pub proof fn law_group_moved(c: ConfigModel, id: u128, before: u128, i: int, j: int)
    requires
        0 <= i < c.groups.len(),
        0 <= j < c.groups.len(),
        c.groups[i].id == id,
        c.groups[j].id == before,
        id != before,
        forall|a: int, b: int|
            0 <= a < b < c.groups.len() ==> (#[trigger] c.groups[a]).id != (
            #[trigger] c.groups[b]).id,
    ensures
        ({
            let r = group_moved(c, id, Some(before)).groups;
            let at = if i < j {
                j - 1
            } else {
                j
            };
            &&& r.len() == c.groups.len()
            &&& r[at] == c.groups[i]
            &&& r[at + 1] == c.groups[j]
        }),
        group_moved(c, id, None).groups.last() == c.groups[i],
        group_moved(c, id, None).groups.drop_last() == c.groups.remove(i),
{
    law_group_found(c.groups, id, i);
    let at = group_place(c.groups, id);
    if at < i {
        assert(c.groups[at].id != c.groups[i].id);
    }
    let rest = c.groups.remove(i);
    let k = if i < j {
        j - 1
    } else {
        j
    };
    assert(rest[k] == c.groups[j]);
    law_group_found(rest, before, k);
    let b = group_place(rest, before);
    if b < k {
        let back = if b < i {
            b
        } else {
            b + 1
        };
        assert(rest[b] == c.groups[back]);
        assert(back < j);
        assert(c.groups[back].id != c.groups[j].id);
    }
    assert(group_moved(c, id, None).groups.drop_last() =~= rest);
}

/// A group that is deleted leaves what it held, after what stood outside groups.
pub proof fn law_group_deleted(c: ConfigModel, id: u128, i: int)
    requires
        0 <= i < c.groups.len(),
        c.groups[i].id == id,
        forall|a: int| 0 <= a < i ==> (#[trigger] c.groups[a]).id != id,
    ensures
        group_deleted(c, id).groups == c.groups.remove(i),
        group_deleted(c, id).ungrouped == c.ungrouped + c.groups[i].items,
        group_deleted(c, id).profiles == c.profiles,
        group_deleted(c, id).ssh == c.ssh,
{
    law_group_found(c.groups, id, i);
    let at = group_place(c.groups, id);
    if at < i {
        assert(c.groups[at].id != id);
    }
}

/// A change of one group leaves the others as they are.
pub proof fn law_one_group_changed(c: ConfigModel, id: u128, g: GroupModel, i: int)
    requires
        0 <= i < c.groups.len(),
    ensures
        group_set(c, id, g).groups.len() == c.groups.len(),
        c.groups[i].id != id ==> group_set(c, id, g).groups[i] == c.groups[i],
        c.groups[i].id == id && (forall|a: int| 0 <= a < i ==> (#[trigger] c.groups[a]).id != id)
            ==> group_set(c, id, g).groups[i] == g && group_at(c, id) == c.groups[i],
        group_set(c, id, g).ungrouped == c.ungrouped,
{
    law_group_found(c.groups, id, i);
    let at = group_place(c.groups, id);
    if at < c.groups.len() {
        law_group_found(c.groups, id, at);
    }
}

/// A new group comes last; it has the name, and holds the item alone: a group of profiles if
/// that is one, else one of hosts.
pub proof fn law_new_group_named(c: ConfigModel, id: u128, name: Seq<char>, item: u128)
    ensures
        ({
            let r = with_new_group(c, id, name, item);
            let g = r.groups.last();
            &&& r.groups.len() == c.groups.len() + 1
            &&& g.id == id && g.name == name && !g.collapsed
            &&& g.items == seq![item]
            &&& g.local == has_profile(c.profiles, item)
            &&& !r.ungrouped.contains(item)
        }),
        forall|local: bool|
            ({
                let g = #[trigger] GroupModel::fresh(id, name, local);
                g.id == id && g.name == name && g.local == local && g.items.len() == 0
                    && !g.collapsed
            }),
{
    lemma_without(c.ungrouped, item);
}

proof fn lemma_holder(groups: Seq<GroupModel>, item: u128)
    ensures
        0 <= holder(groups, item) <= groups.len(),
        holder(groups, item) < groups.len() ==> groups[holder(groups, item)].items.contains(item),
        forall|i: int|
            0 <= i < holder(groups, item) ==> !(#[trigger] groups[i]).items.contains(item),
    decreases groups.len(),
{
    if groups.len() > 0 && !groups[0].items.contains(item) {
        let rest = groups.drop_first();
        lemma_holder(rest, item);
        assert forall|i: int| 0 <= i < holder(groups, item) implies !(
        #[trigger] groups[i]).items.contains(item) by {
            if i > 0 {
                assert(rest[i - 1] == groups[i]);
            }
        }
    }
}

/// The group of an item is one that holds it; an item that no group holds has none.
pub proof fn law_group_of(c: ConfigModel, item: u128)
    ensures
        group_of(c, item) matches Some(id) ==> exists|i: int|
            0 <= i < c.groups.len() && (#[trigger] c.groups[i]).id == id
                && c.groups[i].items.contains(item),
        group_of(c, item) is None ==> forall|i: int|
            0 <= i < c.groups.len() ==> !(#[trigger] c.groups[i]).items.contains(item),
{
    lemma_holder(c.groups, item);
    let i = holder(c.groups, item);
    if i < c.groups.len() {
        assert(c.groups[i].items.contains(item));
    }
}

/// An item can be moved to the groups of its kind, other than its own.
pub proof fn law_move_targets(c: ConfigModel, item: u128, ssh: bool, n: nat, k: int)
    requires
        n <= c.groups.len(),
        0 <= k < move_targets(c, item, ssh, n).len(),
    ensures
        ({
            let (id, enabled) = move_targets(c, item, ssh, n)[k];
            &&& exists|i: int|
                0 <= i < n && (#[trigger] c.groups[i]).id == id && c.groups[i].local == !ssh
            &&& enabled == (group_of(c, item) != Some(id))
        }),
    decreases n,
{
    if n > 0 {
        let rest = move_targets(c, item, ssh, (n - 1) as nat);
        if k < rest.len() {
            law_move_targets(c, item, ssh, (n - 1) as nat, k);
            let (id, enabled) = rest[k];
            let i = choose|i: int|
                0 <= i < n - 1 && (#[trigger] c.groups[i]).id == id && c.groups[i].local == !ssh;
            assert(c.groups[i].id == id);
        } else {
            assert(c.groups[n - 1].local == !ssh);
        }
    }
}

/// Every group of its kind is offered.
pub proof fn law_all_targets(c: ConfigModel, item: u128, ssh: bool, n: nat, i: int)
    requires
        0 <= i < n <= c.groups.len(),
        c.groups[i].local == !ssh,
    ensures
        exists|k: int|
            0 <= k < move_targets(c, item, ssh, n).len() && (#[trigger] move_targets(
                c,
                item,
                ssh,
                n,
            )[k]).0 == c.groups[i].id,
    decreases n,
{
    let all = move_targets(c, item, ssh, n);
    let rest = move_targets(c, item, ssh, (n - 1) as nat);
    if i < n - 1 {
        law_all_targets(c, item, ssh, (n - 1) as nat, i);
        let k = choose|k: int| 0 <= k < rest.len() && (#[trigger] rest[k]).0 == c.groups[i].id;
        assert(all[k].0 == c.groups[i].id);
    } else {
        assert(all[all.len() - 1].0 == c.groups[i].id);
    }
}

proof fn lemma_group_named(groups: Seq<GroupModel>, name: Seq<char>)
    ensures
        0 <= group_named(groups, name) <= groups.len(),
        group_named(groups, name) < groups.len() ==> groups[group_named(groups, name)].name == name,
    decreases groups.len(),
{
    if groups.len() > 0 && groups[0].name != name {
        lemma_group_named(groups.drop_first(), name);
    }
}

/// A host that names a group joins the group of that name, at its end; where there is none,
/// one is made.
pub proof fn law_joins_the_named_group(groups: Seq<GroupModel>, h: SshHostModel, fresh: u128)
    requires
        h.group is Some,
    ensures
        exists|i: int|
            0 <= i < joined_by(groups, h, fresh).len() && (#[trigger] joined_by(
                groups,
                h,
                fresh,
            )[i]).name == h.group->0 && joined_by(groups, h, fresh)[i].items.len() > 0
                && joined_by(groups, h, fresh)[i].items.last() == h.id,
        forall|i: int|
            0 <= i < groups.len() && (#[trigger] groups[i]).name != h.group->0 ==> joined_by(
                groups,
                h,
                fresh,
            )[i] == groups[i],
{
    lemma_group_named(groups, h.group->0);
    let i = group_named(groups, h.group->0);
    let r = joined_by(groups, h, fresh);
    if i < groups.len() {
        assert(r[i].name == h.group->0);
    } else {
        assert(r[groups.len() as int].name == h.group->0);
    }
}

proof fn lemma_kept_all(s: Seq<u128>, known_ids: Seq<u128>)
    requires
        s.no_duplicates(),
        forall|i: int| 0 <= i < s.len() ==> known_ids.contains(#[trigger] s[i]),
    ensures
        kept(s, known_ids, Seq::empty()) == s,
    decreases s.len(),
{
    if s.len() > 0 {
        let rest = s.drop_last();
        assert forall|i: int| 0 <= i < rest.len() implies known_ids.contains(
            #[trigger] rest[i],
        ) by {
            assert(rest[i] == s[i]);
        }
        lemma_kept_all(rest, known_ids);
        assert(!rest.contains(s.last()));
        assert(known_ids.contains(s[s.len() - 1]));
        assert(rest.push(s.last()) =~= s);
    }
}

/// What stands outside groups keeps its order when the config is put in order; what had no
/// place comes after it.
pub proof fn law_order_kept(c: ConfigModel, fresh: Seq<u128>)
    requires
        c.ungrouped.no_duplicates(),
        forall|i: int| 0 <= i < c.ungrouped.len() ==> known(c).contains(#[trigger] c.ungrouped[i]),
    ensures
        c.ungrouped.len() <= normalized(c, fresh).ungrouped.len(),
        normalized(c, fresh).ungrouped.take(c.ungrouped.len() as int) == c.ungrouped,
{
    lemma_kept_all(c.ungrouped, known(c));
    assert(normalized(c, fresh).ungrouped.take(c.ungrouped.len() as int) =~= c.ungrouped);
}

/// A group becomes one of profiles where it holds something, and nothing but profiles; one
/// that was stays so.
pub proof fn law_group_turns_local(g: GroupModel, profiles: Seq<u128>)
    ensures
        g.local ==> settled(g, profiles).local,
        !g.local && g.items.len() == 0 ==> !settled(g, profiles).local,
        !g.local && g.items.len() > 0 && (forall|i: int|
            0 <= i < g.items.len() ==> profiles.contains(#[trigger] g.items[i])) ==> settled(
            g,
            profiles,
        ).local,
        !g.local && (exists|i: int|
            0 <= i < g.items.len() && !profiles.contains(#[trigger] g.items[i])) ==> !settled(
            g,
            profiles,
        ).local,
        settled(g, profiles).name == g.name,
        settled(g, profiles).id == g.id,
{
}

/// Of what stands twice, the first place counts.
pub proof fn law_first_place_counts(s: Seq<u128>, known_ids: Seq<u128>, seen: Seq<u128>, x: u128)
    ensures
        s.contains(x) || seen.contains(x) || !known_ids.contains(x) ==> kept(
            s.push(x),
            known_ids,
            seen,
        ) == kept(s, known_ids, seen),
        !s.contains(x) && !seen.contains(x) && known_ids.contains(x) ==> kept(
            s.push(x),
            known_ids,
            seen,
        ) == kept(s, known_ids, seen).push(x),
{
    assert(s.push(x).drop_last() =~= s);
}

/// An item that is dropped before one that is not in the list comes last in it.
pub proof fn law_item_dropped_beside(c: ConfigModel, item: u128, before: u128)
    requires
        !c.ungrouped.contains(before) || before == item,
    ensures
        item_moved(c, item, None, Some(before)).ungrouped.last() == item,
{
    lemma_without(c.ungrouped, item);
    let u = unplaced(c, item);
    lemma_place(u.ungrouped, before);
    assert(!u.ungrouped.contains(before));
}

proof fn lemma_adopted_stays(
    ungrouped: Seq<u128>,
    groups: Seq<GroupModel>,
    hosts: Seq<SshHostModel>,
    fresh: Seq<u128>,
    i: int,
    x: u128,
)
    requires
        0 <= i < groups.len(),
        groups[i].items.contains(x),
    ensures
        i < adopted(ungrouped, groups, hosts, fresh).len(),
        adopted(ungrouped, groups, hosts, fresh)[i].name == groups[i].name,
        adopted(ungrouped, groups, hosts, fresh)[i].items.contains(x),
    decreases hosts.len(),
{
    if hosts.len() > 0 {
        if waits(ungrouped, groups, hosts[0]) {
            let next = joined_by(groups, hosts[0], fresh[0]);
            lemma_group_named(groups, hosts[0].group->0);
            let k = choose|k: int| 0 <= k < groups[i].items.len() && groups[i].items[k] == x;
            assert(next[i].items[k] == x);
            lemma_adopted_stays(
                ungrouped,
                next,
                hosts.drop_first(),
                fresh.skip(takes(groups, hosts[0])),
                i,
                x,
            );
        } else {
            lemma_adopted_stays(ungrouped, groups, hosts.drop_first(), fresh, i, x);
        }
    }
}

/// Every host that names a group and stands nowhere yet comes into the group of that name.
pub proof fn law_adopted_by_name(
    ungrouped: Seq<u128>,
    groups: Seq<GroupModel>,
    hosts: Seq<SshHostModel>,
    fresh: Seq<u128>,
    k: int,
)
    requires
        0 <= k < hosts.len(),
        hosts[k].group is Some,
        !ungrouped.contains(hosts[k].id),
        !flat(groups).contains(hosts[k].id),
        forall|j: int| 0 <= j < k ==> (#[trigger] hosts[j]).id != hosts[k].id,
    ensures
        exists|i: int|
            0 <= i < adopted(ungrouped, groups, hosts, fresh).len() && (#[trigger] adopted(
                ungrouped,
                groups,
                hosts,
                fresh,
            )[i]).name == hosts[k].group->0 && adopted(
                ungrouped,
                groups,
                hosts,
                fresh,
            )[i].items.contains(hosts[k].id),
    decreases hosts.len(),
{
    let h = hosts[0];
    let rest = hosts.drop_first();
    lemma_contains_add(ungrouped, flat(groups));
    if k == 0 {
        assert(waits(ungrouped, groups, h));
        let next = joined_by(groups, h, fresh[0]);
        law_joins_the_named_group(groups, h, fresh[0]);
        let i = choose|i: int|
            0 <= i < next.len() && (#[trigger] next[i]).name == h.group->0 && next[i].items.len() > 0
                && next[i].items.last() == h.id;
        assert(next[i].items[next[i].items.len() - 1] == h.id);
        lemma_adopted_stays(ungrouped, next, rest, fresh.skip(takes(groups, h)), i, h.id);
        let all = adopted(ungrouped, groups, hosts, fresh);
        assert(all == adopted(ungrouped, next, rest, fresh.skip(takes(groups, h))));
        assert(all[i].name == h.group->0 && all[i].items.contains(h.id));
    } else {
        assert(rest[k - 1] == hosts[k]);
        assert forall|j: int| 0 <= j < k - 1 implies (#[trigger] rest[j]).id != rest[k - 1].id by {
            assert(rest[j] == hosts[j + 1]);
        }
        if waits(ungrouped, groups, h) {
            lemma_joined_by(groups, h, fresh[0]);
            law_adopted_by_name(
                ungrouped,
                joined_by(groups, h, fresh[0]),
                rest,
                fresh.skip(takes(groups, h)),
                k - 1,
            );
        } else {
            law_adopted_by_name(ungrouped, groups, rest, fresh, k - 1);
        }
        let all = adopted(ungrouped, groups, hosts, fresh);
        let (name, id) = (hosts[k].group->0, hosts[k].id);
        let i = choose|i: int|
            0 <= i < all.len() && (#[trigger] all[i]).name == name && all[i].items.contains(id);
        assert(all[i].name == name && all[i].items.contains(id));
    }
}

/// A host that has its place names no group any more, and is otherwise as it was.
pub proof fn law_placed_host(h: SshHostModel)
    ensures
        placed_host(h).group is None,
        placed_host(h).id == h.id && placed_host(h).name == h.name && placed_host(h).host == h.host
            && placed_host(h).user == h.user && placed_host(h).port == h.port && placed_host(h).auth
            == h.auth && placed_host(h).commands == h.commands,
{
}

/// A group is collapsed and shown in turn, and keeps what it holds; no other one changes.
pub proof fn law_group_toggled(c: ConfigModel, i: int, j: int)
    requires
        0 <= i < c.groups.len(),
        0 <= j < c.groups.len(),
        forall|a: int| 0 <= a < i ==> (#[trigger] c.groups[a]).id != c.groups[i].id,
    ensures
        ({
            let r = group_toggled(c, c.groups[i].id);
            &&& r.groups[i].collapsed == !c.groups[i].collapsed
            &&& r.groups[i].items == c.groups[i].items && r.groups[i].name == c.groups[i].name
            &&& c.groups[j].id != c.groups[i].id ==> r.groups[j] == c.groups[j]
            &&& r.ungrouped == c.ungrouped
        }),
{
    law_one_group_changed(c, c.groups[i].id, c.groups[i], i);
    law_one_group_changed(c, c.groups[i].id, c.groups[i], j);
    law_group_found(c.groups, c.groups[i].id, i);
}

/// A group takes the name that it is given, unless that is empty, and keeps what it holds.
pub proof fn law_group_named(c: ConfigModel, i: int, name: Seq<char>)
    requires
        0 <= i < c.groups.len(),
        forall|a: int| 0 <= a < i ==> (#[trigger] c.groups[a]).id != c.groups[i].id,
    ensures
        name.len() == 0 ==> group_renamed(c, c.groups[i].id, name) == c,
        name.len() > 0 ==> group_renamed(c, c.groups[i].id, name).groups[i].name == name
            && group_renamed(c, c.groups[i].id, name).groups[i].items == c.groups[i].items
            && group_renamed(c, c.groups[i].id, name).groups[i].collapsed == c.groups[i].collapsed,
{
    law_one_group_changed(c, c.groups[i].id, c.groups[i], i);
    law_group_found(c.groups, c.groups[i].id, i);
}

/// A group that is added comes last and is empty.
pub proof fn law_group_comes_last(c: ConfigModel, id: u128, name: Seq<char>, local: bool)
    ensures
        ({
            let r = group_added(c, id, name, local);
            &&& r.groups.drop_last() == c.groups
            &&& r.groups.last().id == id && r.groups.last().name == name
            &&& r.groups.last().local == local && r.groups.last().items.len() == 0
            &&& r.ungrouped == c.ungrouped
        }),
{
    assert(group_added(c, id, name, local).groups.drop_last() =~= c.groups);
}

} // verus!
