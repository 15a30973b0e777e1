//! The sidebar's lists: the rows shown, where a dragged row lands, and what moves
//! and changes groups.

use crate::arrange::{arranged, flat, unplaced};
use crate::arrange_laws::{law_unplaced, lemma_times_add, times};
use crate::config::{Config, ConfigModel, Group, GroupModel};
use crate::find::{
    find_group, find_host, find_profile, group_ids, group_place, has_host, has_profile,
};
use crate::ids::{fresh_id, index_of, is_random, lemma_place, place};
use crate::model::{lemma_insert, lemma_push, lemma_remove, lemma_update};
use crate::pane::Rect;
use crate::text::to_chars;
use vstd::prelude::*;

verus! {

/// A line of the profiles section: an item (with its group index) or a group title.
#[derive(Clone, Copy, PartialEq, Eq, Structural, Debug)]
pub enum Row {
    Item(Option<usize>, u128),
    Group(usize),
}

/// Whether an id is that of a profile (`local`) or of a host.
pub open spec fn is_kind(c: ConfigModel, id: u128, local: bool) -> bool {
    if local {
        has_profile(c.profiles, id)
    } else {
        has_host(c.ssh, id)
    }
}

/// The rows of the items of one kind of a list, which stand in a group or outside
/// groups.
pub open spec fn item_rows(c: ConfigModel, items: Seq<u128>, group: Option<usize>, local: bool) -> Seq<Row>
    decreases items.len(),
{
    if items.len() == 0 {
        Seq::empty()
    } else {
        let rest = item_rows(c, items.drop_last(), group, local);
        if is_kind(c, items.last(), local) {
            rest.push(Row::Item(group, items.last()))
        } else {
            rest
        }
    }
}

/// The rows of the first groups: the title of each group of the kind and, where it
/// is open, its items.
pub open spec fn group_rows(c: ConfigModel, n: nat, local: bool) -> Seq<Row>
    decreases n,
{
    if n == 0 {
        Seq::empty()
    } else {
        let rest = group_rows(c, (n - 1) as nat, local);
        let g = c.groups[n - 1];
        if g.local != local {
            rest
        } else if g.collapsed {
            rest.push(Row::Group((n - 1) as usize))
        } else {
            rest.push(Row::Group((n - 1) as usize)) + item_rows(
                c,
                g.items,
                Some((n - 1) as usize),
                local,
            )
        }
    }
}

/// The rows of a section: profiles (`local`) or SSH hosts, first those outside
/// groups, then the groups.
pub open spec fn section_rows(c: ConfigModel, local: bool) -> Seq<Row> {
    item_rows(c, c.ungrouped, None, local) + group_rows(c, c.groups.len(), local)
}

/// What is dragged in the sidebar.
#[derive(Clone, Copy, PartialEq, Eq, Structural, Debug)]
pub enum Dragged {
    Item(u128),
    Group(u128),
}

/// Whether a row shows what is dragged.
pub open spec fn drags(what: Dragged, row: Row, c: ConfigModel) -> bool {
    match (what, row) {
        (Dragged::Item(id), Row::Item(_, other)) => id == other,
        (Dragged::Group(id), Row::Group(gi)) => gi < c.groups.len() && c.groups[gi as int].id == id,
        _ => false,
    }
}

/// Where a drop would put what is dragged.
#[derive(Clone, Copy, PartialEq, Eq, Structural, Debug)]
pub enum Drop {
    /// Move an item into a group (None: outside groups), before another item or at the end.
    Item { id: u128, group: Option<u128>, before: Option<u128> },
    /// Move a group before another one, or last.
    Group { id: u128, before: Option<u128> },
}

/// How a pending drop is shown: a line above a row or below them all, or a group to drop into.
#[derive(Clone, Copy, PartialEq, Eq, Structural, Debug)]
pub enum Mark {
    Above(usize),
    Below,
    Into(usize),
}

/// A point on screen, in the unit of the rectangles.
#[derive(Clone, Copy, PartialEq, Eq, Structural, Debug)]
pub struct Point {
    pub x: i32,
    pub y: i32,
}

/// Whether a point is in a rectangle, its edges included.
pub open spec fn inside(r: Rect, p: Point) -> bool {
    r.left <= p.x <= r.right && r.top <= p.y <= r.bottom
}

/// Whether a point is above the middle of a rectangle.
pub open spec fn above_middle(r: Rect, p: Point) -> bool {
    2 * p.y < r.top + r.bottom
}

/// The id of the group of an index.
pub open spec fn id_at(c: ConfigModel, g: Option<usize>) -> Option<u128> {
    match g {
        Some(gi) => Some(c.groups[gi as int].id),
        None => None,
    }
}

/// Where a dragged item lands, from the row of an index on: in the group whose
/// title is under the pointer, before the first item whose middle is below it, or
/// at the end of what stands above the first title below it.
pub open spec fn item_drop(
    c: ConfigModel,
    id: u128,
    p: Point,
    rows: Seq<(Row, Rect)>,
    from: int,
    above: Option<usize>,
) -> (Drop, Mark)
    decreases rows.len() - from,
{
    if from < 0 || from >= rows.len() {
        (Drop::Item { id, group: id_at(c, above), before: None }, Mark::Below)
    } else {
        let (row, rect) = rows[from];
        match row {
            Row::Item(g, other) => if other != id && above_middle(rect, p) {
                (
                    Drop::Item { id, group: id_at(c, g), before: Some(other) },
                    Mark::Above(from as usize),
                )
            } else {
                item_drop(c, id, p, rows, from + 1, above)
            },
            Row::Group(gi) => if inside(rect, p) {
                (
                    Drop::Item { id, group: id_at(c, Some(gi)), before: None },
                    Mark::Into(from as usize),
                )
            } else if p.y < rect.top {
                (
                    Drop::Item { id, group: id_at(c, above), before: None },
                    Mark::Above(from as usize),
                )
            } else {
                item_drop(c, id, p, rows, from + 1, Some(gi))
            },
        }
    }
}

/// Where a dragged group lands, from the row of an index on: before the first
/// other group whose title's middle is below the pointer, or last.
pub open spec fn group_drop(
    c: ConfigModel,
    id: u128,
    p: Point,
    rows: Seq<(Row, Rect)>,
    from: int,
) -> (Drop, Mark)
    decreases rows.len() - from,
{
    if from < 0 || from >= rows.len() {
        (Drop::Group { id, before: None }, Mark::Below)
    } else {
        let (row, rect) = rows[from];
        match row {
            Row::Group(gi) => if c.groups[gi as int].id != id && above_middle(rect, p) {
                (
                    Drop::Group { id, before: Some(c.groups[gi as int].id) },
                    Mark::Above(from as usize),
                )
            } else {
                group_drop(c, id, p, rows, from + 1)
            },
            _ => group_drop(c, id, p, rows, from + 1),
        }
    }
}

/// Where what is dragged would land at a point.
pub open spec fn landing(c: ConfigModel, what: Dragged, p: Point, rows: Seq<(Row, Rect)>) -> (
    Drop,
    Mark,
) {
    match what {
        Dragged::Item(id) => item_drop(c, id, p, rows, 0, None),
        Dragged::Group(id) => group_drop(c, id, p, rows, 0),
    }
}

/// Whether the groups that rows speak of exist.
pub open spec fn rows_exist(c: ConfigModel, rows: Seq<(Row, Rect)>) -> bool {
    forall|i: int|
        0 <= i < rows.len() ==> match (#[trigger] rows[i]).0 {
            Row::Item(Some(gi), _) => gi < c.groups.len(),
            Row::Item(None, _) => true,
            Row::Group(gi) => gi < c.groups.len(),
        }
}

/// Where an item goes in a list: before another one, or at the end.
pub open spec fn put_at(list: Seq<u128>, before: Option<u128>) -> int {
    match before {
        Some(b) => place(list, b),
        None => list.len() as int,
    }
}

/// The config with an item put into a list of the arrangement, which does not hold
/// it yet.
pub open spec fn put_item(c: ConfigModel, item: u128, group: Option<u128>, before: Option<u128>) -> ConfigModel {
    let gi = match group {
        Some(g) => group_place(c.groups, g),
        None => c.groups.len() as int,
    };
    if gi < c.groups.len() {
        let g = c.groups[gi];
        ConfigModel {
            groups: c.groups.update(
                gi,
                GroupModel { items: g.items.insert(put_at(g.items, before), item), ..g },
            ),
            ..c
        }
    } else {
        ConfigModel { ungrouped: c.ungrouped.insert(put_at(c.ungrouped, before), item), ..c }
    }
}

/// The config with an item moved: into a group (None, or one that is no more:
/// outside groups), before another item or at the end.
pub open spec fn item_moved(c: ConfigModel, item: u128, group: Option<u128>, before: Option<u128>) -> ConfigModel {
    put_item(unplaced(c, item), item, group, before)
}

/// The config with a group moved before another one, or last.
pub open spec fn group_moved(c: ConfigModel, id: u128, before: Option<u128>) -> ConfigModel {
    let i = group_place(c.groups, id);
    if i < c.groups.len() {
        let rest = c.groups.remove(i);
        let at = match before {
            Some(b) => group_place(rest, b),
            None => rest.len() as int,
        };
        ConfigModel { groups: rest.insert(at, c.groups[i]), ..c }
    } else {
        c
    }
}

/// The config without a group; its items stay, outside groups.
pub open spec fn group_deleted(c: ConfigModel, id: u128) -> ConfigModel {
    let i = group_place(c.groups, id);
    if i < c.groups.len() {
        ConfigModel {
            groups: c.groups.remove(i),
            ungrouped: c.ungrouped + c.groups[i].items,
            ..c
        }
    } else {
        c
    }
}

/// The config with a group changed, if there is one.
pub open spec fn group_set(c: ConfigModel, id: u128, g: GroupModel) -> ConfigModel {
    let i = group_place(c.groups, id);
    if i < c.groups.len() {
        ConfigModel { groups: c.groups.update(i, g), ..c }
    } else {
        c
    }
}

/// The group of an id.
pub open spec fn group_at(c: ConfigModel, id: u128) -> GroupModel {
    c.groups[group_place(c.groups, id)]
}

/// Where the first group that holds an item stands, or the number of groups.
pub open spec fn holder(groups: Seq<GroupModel>, item: u128) -> int
    decreases groups.len(),
{
    if groups.len() == 0 || groups[0].items.contains(item) {
        0
    } else {
        1 + holder(groups.drop_first(), item)
    }
}

/// The id of the group that an item is in.
pub open spec fn group_of(c: ConfigModel, item: u128) -> Option<u128> {
    let i = holder(c.groups, item);
    if i < c.groups.len() {
        Some(c.groups[i].id)
    } else {
        None
    }
}

proof fn lemma_holder(groups: Seq<GroupModel>, item: u128, n: int)
    requires
        0 <= n <= groups.len(),
        forall|j: int| 0 <= j < n ==> !(#[trigger] groups[j]).items.contains(item),
        n < groups.len() ==> groups[n].items.contains(item),
    ensures
        holder(groups, item) == n,
    decreases n,
{
    if n > 0 {
        let rest = groups.drop_first();
        assert forall|j: int| 0 <= j < n - 1 implies !(#[trigger] rest[j]).items.contains(item) by {
            assert(rest[j] == groups[j + 1]);
        }
        lemma_holder(rest, item, n - 1);
    }
}

/// The groups an item can be moved to: those of its kind, each with whether it is
/// in another.
pub open spec fn move_targets(c: ConfigModel, item: u128, ssh: bool, n: nat) -> Seq<(u128, bool)>
    decreases n,
{
    if n == 0 {
        Seq::empty()
    } else {
        let rest = move_targets(c, item, ssh, (n - 1) as nat);
        let g = c.groups[n - 1];
        if g.local != ssh {
            rest.push((g.id, group_of(c, item) != Some(g.id)))
        } else {
            rest
        }
    }
}

impl Config {
    fn of_kind(&self, id: u128, local: bool) -> (r: bool)
        ensures
            r == is_kind(self@, id, local),
    {
        if local {
            find_profile(&self.profiles, id) < self.profiles.len()
        } else {
            find_host(&self.ssh, id) < self.ssh.len()
        }
    }

    fn add_rows(&self, items: &Vec<u128>, group: Option<usize>, local: bool, rows: &mut Vec<Row>)
        ensures
            final(rows)@ == old(rows)@ + item_rows(self@, items@, group, local),
    {
        let ghost start = rows@;
        let mut i: usize = 0;
        assert(items@.take(0) =~= Seq::empty());
        assert(rows@ =~= start + item_rows(self@, items@.take(0), group, local));
        while i < items.len()
            invariant
                i <= items@.len(),
                rows@ == start + item_rows(self@, items@.take(i as int), group, local),
            decreases items.len() - i,
        {
            assert(items@.take(i + 1).drop_last() =~= items@.take(i as int));
            let ghost before = item_rows(self@, items@.take(i as int), group, local);
            if self.of_kind(items[i], local) {
                rows.push(Row::Item(group, items[i]));
                assert(rows@ =~= start + before.push(Row::Item(group, items@[i as int])));
            }
            i += 1;
        }
        assert(items@.take(i as int) =~= items@);
    }

    /// The rows of the profiles (`local`) or of the SSH hosts, in user-defined, collapsible groups.
    pub fn rows(&self, local: bool) -> (rows: Vec<Row>)
        ensures
            rows@ == section_rows(self@, local),
    {
        let mut rows: Vec<Row> = Vec::new();
        self.add_rows(&self.ungrouped, None, local, &mut rows);
        let ghost first = item_rows(self@, self.ungrouped@, None, local);
        let mut i: usize = 0;
        assert(rows@ =~= first + group_rows(self@, 0, local));
        while i < self.groups.len()
            invariant
                i <= self.groups@.len(),
                rows@ == first + group_rows(self@, i as nat, local),
            decreases self.groups.len() - i,
        {
            let ghost before = group_rows(self@, i as nat, local);
            assert(self@.groups[i as int] == self.groups@[i as int]@);
            if self.groups[i].local == local {
                rows.push(Row::Group(i));
                assert(rows@ =~= first + before.push(Row::Group(i)));
                if !self.groups[i].collapsed {
                    self.add_rows(&self.groups[i].items, Some(i), local, &mut rows);
                    assert(rows@ =~= first + (before.push(Row::Group(i)) + item_rows(
                        self@,
                        self@.groups[i as int].items,
                        Some(i),
                        local,
                    )));
                }
            }
            i += 1;
        }
        rows
    }

    /// How many items of a group are shown.
    pub fn count(&self, group: usize) -> (n: usize)
        requires
            group < self.groups@.len(),
        ensures
            n == item_rows(
                self@,
                self@.groups[group as int].items,
                Some(group),
                self@.groups[group as int].local,
            ).len(),
    {
        let mut rows: Vec<Row> = Vec::new();
        self.add_rows(&self.groups[group].items, Some(group), self.groups[group].local, &mut rows);
        rows.len()
    }

    /// Whether a row shows what is dragged.
    pub fn is_dragged(&self, what: Dragged, row: Row) -> (r: bool)
        ensures
            r == drags(what, row, self@),
    {
        match (what, row) {
            (Dragged::Item(id), Row::Item(_, other)) => id == other,
            (Dragged::Group(id), Row::Group(gi)) => gi < self.groups.len() && self.groups[gi].id
                == id,
            _ => false,
        }
    }

    fn group_id(&self, g: Option<usize>) -> (r: Option<u128>)
        requires
            g matches Some(gi) ==> gi < self.groups@.len(),
        ensures
            r == id_at(self@, g),
    {
        match g {
            Some(gi) => Some(self.groups[gi].id),
            None => None,
        }
    }

    /// Where a dragged item or group would land at pointer position `p`.
    pub fn drop_target(&self, what: Dragged, p: Point, rects: &Vec<(Row, Rect)>) -> (r: (Drop, Mark))
        requires
            rows_exist(self@, rects@),
        ensures
            r == landing(self@, what, p, rects@),
    {
        let mut i: usize = 0;
        let ghost c = self@;
        match what {
            Dragged::Item(id) => {
                // Only the groups shown in this section count (local and SSH groups are listed apart).
                let mut previous: Option<usize> = None;
                while i < rects.len()
                    invariant
                        i <= rects@.len(),
                        c == self@,
                        what == Dragged::Item(id),
                        rows_exist(c, rects@),
                        previous matches Some(gi) ==> gi < self.groups@.len(),
                        item_drop(c, id, p, rects@, 0, None) == item_drop(
                            c,
                            id,
                            p,
                            rects@,
                            i as int,
                            previous,
                        ),
                    decreases rects.len() - i,
                {
                    let (row, rect) = rects[i];
                    assert(rects@[i as int] == (row, rect));
                    match row {
                        Row::Item(g, other) => {
                            if other != id && 2 * (p.y as i64) < rect.top as i64 + rect.bottom as i64 {
                                return (
                                    Drop::Item { id, group: self.group_id(g), before: Some(other) },
                                    Mark::Above(i),
                                );
                            }
                        },
                        Row::Group(gi) => {
                            if rect.left <= p.x && p.x <= rect.right && rect.top <= p.y && p.y
                                <= rect.bottom {
                                return (
                                    Drop::Item {
                                        id,
                                        group: self.group_id(Some(gi)),
                                        before: None,
                                    },
                                    Mark::Into(i),
                                );
                            }
                            // Above a group title: at the end of whatever comes before it.
                            if p.y < rect.top {
                                return (
                                    Drop::Item { id, group: self.group_id(previous), before: None },
                                    Mark::Above(i),
                                );
                            }
                            previous = Some(gi);
                        },
                    }
                    i += 1;
                }
                (Drop::Item { id, group: self.group_id(previous), before: None }, Mark::Below)
            },
            Dragged::Group(id) => {
                while i < rects.len()
                    invariant
                        i <= rects@.len(),
                        c == self@,
                        what == Dragged::Group(id),
                        rows_exist(c, rects@),
                        group_drop(c, id, p, rects@, 0) == group_drop(c, id, p, rects@, i as int),
                    decreases rects.len() - i,
                {
                    let (row, rect) = rects[i];
                    assert(rects@[i as int] == (row, rect));
                    if let Row::Group(gi) = row {
                        if self.groups[gi].id != id && 2 * (p.y as i64) < rect.top as i64
                            + rect.bottom as i64 {
                            return (
                                Drop::Group { id, before: Some(self.groups[gi].id) },
                                Mark::Above(i),
                            );
                        }
                    }
                    i += 1;
                }
                (Drop::Group { id, before: None }, Mark::Below)
            },
        }
    }

    /// Moves an item into a group (None: outside groups), before another item or at the end.
    pub fn drop_item(&mut self, item: u128, group: Option<u128>, before: Option<u128>)
        ensures
            final(self)@ == item_moved(old(self)@, item, group, before),
    {
        self.unplace(item);
        let ghost c = self@;
        let gi: usize = match group {
            Some(g) => find_group(&self.groups, g),
            None => self.groups.len(),
        };
        if gi < self.groups.len() {
            let at: usize = match before {
                Some(b) => index_of(&self.groups[gi].items, b),
                None => self.groups[gi].items.len(),
            };
            let ghost groups = self.groups@;
            self.groups[gi].items.insert(at, item);
            proof {
                lemma_update(groups, gi as int, self.groups@[gi as int]);
                assert(self.groups@ =~= groups.update(gi as int, self.groups@[gi as int]));
                assert(self@ =~= put_item(c, item, group, before));
            }
        } else {
            let at: usize = match before {
                Some(b) => index_of(&self.ungrouped, b),
                None => self.ungrouped.len(),
            };
            self.ungrouped.insert(at, item);
            assert(self@ =~= put_item(c, item, group, before));
        }
    }

    /// Moves a group before another one, or last.
    pub fn drop_group(&mut self, id: u128, before: Option<u128>)
        ensures
            final(self)@ == group_moved(old(self)@, id, before),
    {
        let ghost c = self@;
        let i = find_group(&self.groups, id);
        if i < self.groups.len() {
            let ghost groups = self.groups@;
            let g = self.groups.remove(i);
            proof {
                lemma_remove(groups, i as int);
            }
            let at: usize = match before {
                Some(b) => find_group(&self.groups, b),
                None => self.groups.len(),
            };
            let ghost rest = self.groups@;
            self.groups.insert(at, g);
            proof {
                lemma_insert(rest, at as int, g);
                assert(self@ =~= group_moved(c, id, before));
            }
        }
    }

    /// Deletes a group. Its items stay, outside groups.
    pub fn delete_group(&mut self, id: u128)
        ensures
            final(self)@ == group_deleted(old(self)@, id),
    {
        let ghost c = self@;
        let i = find_group(&self.groups, id);
        if i < self.groups.len() {
            let ghost groups = self.groups@;
            let mut g = self.groups.remove(i);
            proof {
                lemma_remove(groups, i as int);
            }
            self.ungrouped.append(&mut g.items);
            assert(self@ =~= group_deleted(c, id));
        }
    }

    /// Opens or collapses a group.
    pub fn toggle_group(&mut self, id: u128)
        ensures
            final(self)@ == group_set(
                old(self)@,
                id,
                GroupModel {
                    collapsed: !group_at(old(self)@, id).collapsed,
                    ..group_at(old(self)@, id)
                },
            ),
            final(self)@ == group_toggled(old(self)@, id),
    {
        let ghost c = self@;
        let i = find_group(&self.groups, id);
        if i < self.groups.len() {
            let ghost groups = self.groups@;
            self.groups[i].collapsed = !self.groups[i].collapsed;
            proof {
                lemma_update(groups, i as int, self.groups@[i as int]);
                assert(self.groups@ =~= groups.update(i as int, self.groups@[i as int]));
            }
        }
    }

    /// Renames a group; an empty name changes nothing.
    pub fn rename_group(&mut self, id: u128, name: String)
        ensures
            final(self)@ == if name@.len() == 0 {
                old(self)@
            } else {
                group_set(old(self)@, id, GroupModel { name: name@, ..group_at(old(self)@, id) })
            },
            final(self)@ == group_renamed(old(self)@, id, name@),
    {
        let i = find_group(&self.groups, id);
        if i < self.groups.len() && to_chars(name.as_str()).len() > 0 {
            let ghost groups = self.groups@;
            self.groups[i].name = name;
            proof {
                lemma_update(groups, i as int, self.groups@[i as int]);
                assert(self.groups@ =~= groups.update(i as int, self.groups@[i as int]));
            }
        }
    }

    /// Adds a group of local profiles or of SSH hosts, with a given id.
    pub fn add_group(&mut self, id: u128, name: &str, local: bool)
        ensures
            final(self)@ == (ConfigModel {
                groups: old(self)@.groups.push(GroupModel::fresh(id, name@, local)),
                ..old(self)@
            }),
            final(self)@ == group_added(old(self)@, id, name@, local),
    {
        let ghost groups = self.groups@;
        let group = Group::with_id(id, name, local);
        self.groups.push(group);
        proof {
            lemma_push(groups, group);
        }
    }

    /// Adds a group of local profiles or of SSH hosts. Gives its id.
    pub fn new_group(&mut self, name: &str, local: bool) -> (id: u128)
        ensures
            is_random(id),
            final(self)@ == (ConfigModel {
                groups: old(self)@.groups.push(GroupModel::fresh(id, name@, local)),
                ..old(self)@
            }),
            final(self)@ == group_added(old(self)@, id, name@, local),
    {
        let id = fresh_id();
        self.add_group(id, name, local);
        id
    }

    /// Adds a group of the kind of an item, with a given id, and moves the item
    /// into it.
    pub fn add_group_with(&mut self, id: u128, name: &str, item: u128)
        ensures
            final(self)@ == with_new_group(old(self)@, id, name@, item),
    {
        let ghost c = self@;
        let local = find_profile(&self.profiles, item) < self.profiles.len();
        self.unplace(item);
        let ghost u = self@;
        let ghost groups = self.groups@;
        let mut group = Group::with_id(id, name, local);
        group.items.push(item);
        self.groups.push(group);
        proof {
            lemma_push(groups, group);
            assert(group@ =~= GroupModel {
                items: seq![item],
                ..GroupModel::fresh(id, name@, local)
            });
            assert(self@ =~= with_new_group(c, id, name@, item));
        }
    }

    /// Adds a group holding an item. Gives its id.
    pub fn new_group_with(&mut self, name: &str, item: u128) -> (id: u128)
        ensures
            is_random(id),
            final(self)@ == with_new_group(old(self)@, id, name@, item),
    {
        let id = fresh_id();
        self.add_group_with(id, name, item);
        id
    }

    /// The group that an item is in.
    pub fn group_of(&self, item: u128) -> (r: Option<u128>)
        ensures
            r == group_of(self@, item),
    {
        let mut i: usize = 0;
        while i < self.groups.len() && !crate::ids::holds_id(&self.groups[i].items, item)
            invariant
                i <= self.groups@.len(),
                forall|j: int| 0 <= j < i ==> !(#[trigger] self@.groups[j]).items.contains(item),
            decreases self.groups.len() - i,
        {
            i += 1;
        }
        proof {
            lemma_holder(self@.groups, item, i as int);
        }
        if i < self.groups.len() {
            Some(self.groups[i].id)
        } else {
            None
        }
    }

    /// The groups an item can be moved to, each with whether it is in another.
    /// Profiles go into local groups, hosts into SSH groups.
    pub fn move_targets(&self, item: u128, ssh: bool) -> (r: Vec<(u128, bool)>)
        ensures
            r@ == move_targets(self@, item, ssh, self@.groups.len()),
    {
        let current = self.group_of(item);
        let mut r: Vec<(u128, bool)> = Vec::new();
        let mut i: usize = 0;
        while i < self.groups.len()
            invariant
                i <= self.groups@.len(),
                current == group_of(self@, item),
                r@ == move_targets(self@, item, ssh, i as nat),
            decreases self.groups.len() - i,
        {
            assert(self@.groups[i as int] == self.groups@[i as int]@);
            if self.groups[i].local != ssh {
                let id = self.groups[i].id;
                let elsewhere = match current {
                    Some(g) => g != id,
                    None => true,
                };
                r.push((id, elsewhere));
            }
            i += 1;
        }
        r
    }
}

/// The config with one more group, of the kind of an item, which holds it.
pub open spec fn with_new_group(c: ConfigModel, id: u128, name: Seq<char>, item: u128) -> ConfigModel {
    let u = unplaced(c, item);
    ConfigModel {
        groups: u.groups.push(
            GroupModel {
                items: seq![item],
                ..GroupModel::fresh(id, name, has_profile(c.profiles, item))
            },
        ),
        ..u
    }
}

proof fn lemma_times_one(y: u128, x: u128)
    ensures
        times(seq![y], x) == if x == y {
            1nat
        } else {
            0
        },
{
    reveal_with_fuel(times, 2);
    assert(seq![y].drop_last().len() == 0);
}

proof fn lemma_times_insert(s: Seq<u128>, at: int, y: u128, x: u128)
    requires
        0 <= at <= s.len(),
    ensures
        times(s.insert(at, y), x) == times(s, x) + (if x == y {
            1nat
        } else {
            0
        }),
{
    assert(s.insert(at, y) =~= s.take(at) + seq![y] + s.skip(at));
    lemma_times_add(s.take(at) + seq![y], s.skip(at), x);
    lemma_times_add(s.take(at), seq![y], x);
    lemma_times_add(s.take(at), s.skip(at), x);
    assert(s.take(at) + s.skip(at) =~= s);
    lemma_times_one(y, x);
}

proof fn lemma_times_update(groups: Seq<GroupModel>, i: int, g: GroupModel, x: u128)
    requires
        0 <= i < groups.len(),
    ensures
        times(flat(groups.update(i, g)), x) + times(groups[i].items, x) == times(flat(groups), x)
            + times(g.items, x),
    decreases groups.len(),
{
    let after = groups.update(i, g);
    let rest = groups.drop_last();
    lemma_times_add(flat(rest), groups.last().items, x);
    lemma_times_add(flat(after.drop_last()), after.last().items, x);
    if i == groups.len() - 1 {
        assert(after.drop_last() =~= rest);
    } else {
        lemma_times_update(rest, i, g, x);
        assert(after.drop_last() =~= rest.update(i, g));
    }
}

proof fn lemma_times_remove(groups: Seq<GroupModel>, i: int, x: u128)
    requires
        0 <= i < groups.len(),
    ensures
        times(flat(groups.remove(i)), x) + times(groups[i].items, x) == times(flat(groups), x),
    decreases groups.len(),
{
    let after = groups.remove(i);
    let rest = groups.drop_last();
    lemma_times_add(flat(rest), groups.last().items, x);
    if i == groups.len() - 1 {
        assert(after =~= rest);
    } else {
        lemma_times_remove(rest, i, x);
        assert(after.drop_last() =~= rest.remove(i));
        lemma_times_add(flat(after.drop_last()), after.last().items, x);
    }
}

proof fn lemma_put_at(list: Seq<u128>, before: Option<u128>)
    ensures
        0 <= put_at(list, before) <= list.len(),
{
    if let Some(b) = before {
        lemma_place(list, b);
    }
}

/// A dropped item stands in the arrangement exactly once, and every other item as
/// often as before: dragging loses and doubles nothing.
pub proof fn law_drop_item(
    c: ConfigModel,
    item: u128,
    group: Option<u128>,
    before: Option<u128>,
    x: u128,
)
    ensures
        times(arranged(item_moved(c, item, group, before)), x) == if x == item {
            1
        } else {
            times(arranged(c), x)
        },
{
    let u = unplaced(c, item);
    let m = item_moved(c, item, group, before);
    law_unplaced(c, item, x);
    lemma_times_add(u.ungrouped, flat(u.groups), x);
    lemma_times_add(m.ungrouped, flat(m.groups), x);
    let gi = match group {
        Some(g) => group_place(u.groups, g),
        None => u.groups.len() as int,
    };
    if let Some(g) = group {
        lemma_place(group_ids(u.groups), g);
    }
    if gi < u.groups.len() {
        let g = u.groups[gi];
        lemma_put_at(g.items, before);
        lemma_times_insert(g.items, put_at(g.items, before), item, x);
        lemma_times_update(
            u.groups,
            gi,
            GroupModel { items: g.items.insert(put_at(g.items, before), item), ..g },
            x,
        );
    } else {
        lemma_put_at(u.ungrouped, before);
        lemma_times_insert(u.ungrouped, put_at(u.ungrouped, before), item, x);
    }
}

/// The list that a drop on a group goes to: its items, or what is outside groups
/// where there is no such group.
pub open spec fn list_of(c: ConfigModel, group: Option<u128>) -> Seq<u128> {
    match group {
        Some(g) => if group_place(c.groups, g) < c.groups.len() {
            c.groups[group_place(c.groups, g)].items
        } else {
            c.ungrouped
        },
        None => c.ungrouped,
    }
}

/// An item that is dropped on another stands right before it, in the list that
/// holds it.
pub proof fn law_drop_before(c: ConfigModel, item: u128, group: Option<u128>, before: u128)
    requires
        before != item,
        list_of(c, group).contains(before),
    ensures
        ({
            let list = list_of(item_moved(c, item, group, Some(before)), group);
            exists|i: int|
                0 <= i < list.len() - 1 && list[i] == item && #[trigger] list[i + 1] == before
        }),
{
    let u = unplaced(c, item);
    let m = item_moved(c, item, group, Some(before));
    assert(group_ids(u.groups) =~= group_ids(c.groups));
    if let Some(g) = group {
        lemma_place(group_ids(c.groups), g);
    }
    assert(group_ids(m.groups) =~= group_ids(c.groups));
    crate::ids::lemma_without(list_of(c, group), item);
    let list = list_of(m, group);
    lemma_place(list_of(u, group), before);
    let i = place(list_of(u, group), before);
    assert(list[i] == item && list[i + 1] == before);
}

/// Deleting a group loses and doubles no item.
pub proof fn law_delete_group(c: ConfigModel, id: u128, x: u128)
    ensures
        times(arranged(group_deleted(c, id)), x) == times(arranged(c), x),
{
    let d = group_deleted(c, id);
    let i = group_place(c.groups, id);
    lemma_place(group_ids(c.groups), id);
    lemma_times_add(c.ungrouped, flat(c.groups), x);
    lemma_times_add(d.ungrouped, flat(d.groups), x);
    if i < c.groups.len() {
        lemma_times_remove(c.groups, i, x);
        lemma_times_add(c.ungrouped, c.groups[i].items, x);
    }
}

/// Moving a group moves its items with it: the groups are the same, in another
/// order, and so no item is lost or doubled.
pub proof fn law_drop_group(c: ConfigModel, id: u128, before: Option<u128>, x: u128)
    ensures
        group_moved(c, id, before).groups.to_multiset() == c.groups.to_multiset(),
        group_moved(c, id, before).ungrouped == c.ungrouped,
        times(arranged(group_moved(c, id, before)), x) == times(arranged(c), x),
{
    broadcast use vstd::seq_lib::group_to_multiset_ensures;

    let m = group_moved(c, id, before);
    let i = group_place(c.groups, id);
    lemma_place(group_ids(c.groups), id);
    lemma_times_add(c.ungrouped, flat(c.groups), x);
    lemma_times_add(m.ungrouped, flat(m.groups), x);
    if i < c.groups.len() {
        let rest = c.groups.remove(i);
        let g = c.groups[i];
        let at = match before {
            Some(b) => group_place(rest, b),
            None => rest.len() as int,
        };
        if let Some(b) = before {
            lemma_place(group_ids(rest), b);
        }
        lemma_times_remove(c.groups, i, x);
        assert(m.groups.remove(at) =~= rest);
        lemma_times_remove(m.groups, at, x);
        assert(m.groups[at] == g);
        assert(c.groups.to_multiset().remove(g).insert(g) =~= c.groups.to_multiset());
        assert(m.groups.to_multiset().remove(g).insert(g) =~= m.groups.to_multiset());
    }
}

/// A new group takes its item from wherever it was: no item is lost or doubled.
pub proof fn law_new_group_with(c: ConfigModel, id: u128, name: Seq<char>, item: u128, x: u128)
    ensures
        times(arranged(with_new_group(c, id, name, item)), x) == if x == item {
            1
        } else {
            times(arranged(c), x)
        },
{
    let u = unplaced(c, item);
    let m = with_new_group(c, id, name, item);
    law_unplaced(c, item, x);
    lemma_times_add(u.ungrouped, flat(u.groups), x);
    lemma_times_add(m.ungrouped, flat(m.groups), x);
    assert(m.groups.drop_last() =~= u.groups);
    lemma_times_add(flat(u.groups), seq![item], x);
    lemma_times_one(item, x);
}

/// With a group collapsed, or shown again.
pub open spec fn group_toggled(c: ConfigModel, id: u128) -> ConfigModel {
    group_set(c, id, GroupModel { collapsed: !group_at(c, id).collapsed, ..group_at(c, id) })
}

/// With another name of a group; an empty one is not taken.
pub open spec fn group_renamed(c: ConfigModel, id: u128, name: Seq<char>) -> ConfigModel {
    if name.len() == 0 {
        c
    } else {
        group_set(c, id, GroupModel { name, ..group_at(c, id) })
    }
}

/// With a new group.
pub open spec fn group_added(c: ConfigModel, id: u128, name: Seq<char>, local: bool) -> ConfigModel {
    ConfigModel { groups: c.groups.push(GroupModel::fresh(id, name, local)), ..c }
}

} // verus!
