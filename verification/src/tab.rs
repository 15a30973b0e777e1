//! A tab: its panes in their split layout, the one with the focus, and what is
//! saved of it.

use crate::color::Color;
use crate::config::{Layout, LayoutModel, TabState, TabStateModel};
use crate::files::{FileManager, FileManagerModel};
use crate::ids::{fresh_id, is_random};
use crate::pane::{
    law_order_holds, law_remove_order, neighbor, neighbor_id, Direction, Node, PaneId, Rect,
};
use crate::text::{clone_opt, opt_view};
use std::collections::{HashMap, HashSet};
use vstd::prelude::*;

verus! {

broadcast use vstd::std_specs::hash::group_hash_axioms;

/// A tab.
#[derive(Debug)]
pub struct Tab {
    /// Name given by the user; falls back to the focused program's title.
    pub name: Option<String>,
    pub color: Option<Color>,
    pub layout: Node,
    pub focused: PaneId,
    /// Pane rects from the last frame, for keyboard navigation.
    pub rects: Vec<(PaneId, Rect)>,
    /// Profile this tab keeps up to date.
    pub profile: Option<u128>,
    /// SSH host the tab's panes connect to; its name and color are the host's.
    pub ssh: Option<u128>,
    /// Last known directory of each pane, kept once its shell has exited.
    pub cwds: HashMap<PaneId, String>,
    /// Command history id of each pane (see `shell`).
    pub histories: HashMap<PaneId, u128>,
    /// SSH panes whose connection ended: kept on screen with their last output until reconnected or closed.
    pub dead: HashSet<PaneId>,
    /// Panes whose shell starts the first time the tab is shown: restoring many tabs at once
    /// would otherwise start all their shells together and saturate the CPU.
    pub pending: Vec<PaneId>,
    /// Panes that have a terminal.
    pub running: HashSet<PaneId>,
    /// SSH tabs: the file manager (created when first shown), and whether it is shown instead of the
    /// terminals.
    pub files: Option<FileManager>,
    pub show_files: bool,
}

#[verifier::ext_equal]
pub struct TabModel {
    pub name: Option<Seq<char>>,
    pub color: Option<Color>,
    pub layout: Node,
    pub focused: PaneId,
    pub rects: Seq<(PaneId, Rect)>,
    pub profile: Option<u128>,
    pub ssh: Option<u128>,
    pub cwds: Map<PaneId, Seq<char>>,
    pub histories: Map<PaneId, u128>,
    pub dead: Set<PaneId>,
    pub pending: Seq<PaneId>,
    pub running: Set<PaneId>,
    pub files: Option<FileManagerModel>,
    pub show_files: bool,
}

/// The directories of panes, as texts.
pub open spec fn texts(m: Map<PaneId, String>) -> Map<PaneId, Seq<char>> {
    m.map_values(|s: String| s@)
}

pub open spec fn files_view(f: Option<FileManager>) -> Option<FileManagerModel> {
    match f {
        Some(f) => Some(f@),
        None => None,
    }
}

impl View for Tab {
    type V = TabModel;

    open spec fn view(&self) -> TabModel {
        TabModel {
            name: opt_view(self.name),
            color: self.color,
            layout: self.layout,
            focused: self.focused,
            rects: self.rects@,
            profile: self.profile,
            ssh: self.ssh,
            cwds: texts(self.cwds@),
            histories: self.histories@,
            dead: self.dead@,
            pending: self.pending@,
            running: self.running@,
            files: files_view(self.files),
            show_files: self.show_files,
        }
    }
}

/// Directories that panes were seen in.
pub open spec fn seen_views(s: Seq<(PaneId, String)>) -> Seq<(PaneId, Seq<char>)> {
    s.map_values(|p: (PaneId, String)| (p.0, p.1@))
}

/// The directories of panes, with those they were seen in.
pub open spec fn noted(cwds: Map<PaneId, Seq<char>>, seen: Seq<(PaneId, Seq<char>)>) -> Map<
    PaneId,
    Seq<char>,
>
    decreases seen.len(),
{
    if seen.len() == 0 {
        cwds
    } else {
        noted(cwds, seen.drop_last()).insert(seen.last().0, seen.last().1)
    }
}

/// What a table holds for a pane, if anything.
pub open spec fn entry<T>(m: Map<PaneId, T>, id: PaneId) -> Option<T> {
    if m.contains_key(id) {
        Some(m[id])
    } else {
        None
    }
}

/// The layout to save for a tree of panes, with the directory and the history of each.
pub open spec fn layout_of(
    n: Node,
    cwds: Map<PaneId, Seq<char>>,
    histories: Map<PaneId, u128>,
) -> LayoutModel
    decreases n,
{
    match n {
        Node::Leaf(id) => LayoutModel::Pane { cwd: entry(cwds, id), history: entry(histories, id) },
        Node::Split { axis, ratio, a, b } => LayoutModel::Split {
            axis,
            ratio,
            a: Box::new(layout_of(*a, cwds, histories)),
            b: Box::new(layout_of(*b, cwds, histories)),
        },
    }
}

/// Where a pane stands in a list, or the length of the list.
pub open spec fn pane_place(s: Seq<PaneId>, id: PaneId) -> int
    decreases s.len(),
{
    if s.len() == 0 || s[0] == id {
        0
    } else {
        1 + pane_place(s.drop_first(), id)
    }
}

/// `pane_place` is the first place that holds the pane.
pub proof fn lemma_pane_place(s: Seq<PaneId>, id: PaneId, n: int)
    requires
        0 <= n <= s.len(),
        forall|j: int| 0 <= j < n ==> #[trigger] s[j] != id,
        n < s.len() ==> s[n] == id,
    ensures
        pane_place(s, id) == n,
    decreases n,
{
    if n > 0 {
        let rest = s.drop_first();
        assert forall|j: int| 0 <= j < n - 1 implies #[trigger] rest[j] != id by {
            assert(rest[j] == s[j + 1]);
        }
        lemma_pane_place(rest, id, n - 1);
    }
}

/// Finds a pane in a list.
pub fn find_pane(list: &Vec<PaneId>, id: PaneId) -> (r: usize)
    ensures
        r == pane_place(list@, id),
        r <= list@.len(),
        (r < list@.len()) == list@.contains(id),
{
    let mut i: usize = 0;
    while i < list.len() && list[i] != id
        invariant
            i <= list@.len(),
            forall|j: int| 0 <= j < i ==> #[trigger] list@[j] != id,
        decreases list.len() - i,
    {
        i += 1;
    }
    proof {
        lemma_pane_place(list@, id, i as int);
    }
    i
}

/// Being another pane.
pub open spec fn other_pane(id: PaneId) -> spec_fn(PaneId) -> bool {
    |p: PaneId| p != id
}

/// The panes of a list but one.
pub open spec fn less_pane(s: Seq<PaneId>, id: PaneId) -> Seq<PaneId> {
    s.filter(other_pane(id))
}

/// The panes of a list but one.
pub fn drop_pane(list: &Vec<PaneId>, id: PaneId) -> (r: Vec<PaneId>)
    ensures
        r@ == less_pane(list@, id),
{
    let mut r: Vec<PaneId> = Vec::new();
    let mut i: usize = 0;
    let ghost p = other_pane(id);
    proof {
        reveal(Seq::filter);
        assert(r@ =~= list@.take(0).filter(p));
    }
    while i < list.len()
        invariant
            i <= list@.len(),
            p == other_pane(id),
            r@ == list@.take(i as int).filter(p),
        decreases list.len() - i,
    {
        proof {
            reveal(Seq::filter);
            assert(list@.take(i + 1).drop_last() =~= list@.take(i as int));
        }
        if list[i] != id {
            r.push(list[i]);
        }
        i += 1;
    }
    assert(list@.take(i as int) =~= list@);
    r
}

impl TabModel {
    /// A tab of a tree of panes, the first of which has the focus.
    pub open spec fn fresh(layout: Node) -> TabModel {
        TabModel {
            name: None,
            color: None,
            layout,
            focused: layout.order()[0],
            rects: Seq::empty(),
            profile: None,
            ssh: None,
            cwds: Map::empty(),
            histories: Map::empty(),
            dead: Set::empty(),
            pending: Seq::empty(),
            running: Set::empty(),
            files: None,
            show_files: false,
        }
    }

    /// With the directories that panes were seen in.
    pub open spec fn seeing(self, seen: Seq<(PaneId, Seq<char>)>) -> TabModel {
        TabModel { cwds: noted(self.cwds, seen), ..self }
    }

    /// What is saved of the tab.
    pub open spec fn snapshot(self) -> TabStateModel {
        let order = self.layout.order();
        TabStateModel {
            name: self.name,
            color: self.color,
            layout: layout_of(self.layout, self.cwds, self.histories),
            focused: if order.contains(self.focused) {
                pane_place(order, self.focused) as usize
            } else {
                0
            },
        }
    }

    /// What the tab is called.
    pub open spec fn called(self, title: Option<Seq<char>>) -> Seq<char> {
        match (self.name, title) {
            (Some(name), _) => name,
            (None, Some(title)) => title,
            (None, None) => "Terminal"@,
        }
    }

    /// The pane that takes the place of one on screen: the first neighbour on its
    /// left, above, on its right or below.
    pub open spec fn heir(self, id: PaneId) -> Option<PaneId> {
        let left = neighbor_id(self.rects, id, Direction::Left);
        let up = neighbor_id(self.rects, id, Direction::Up);
        let right = neighbor_id(self.rects, id, Direction::Right);
        if left is Some {
            left
        } else if up is Some {
            up
        } else if right is Some {
            right
        } else {
            neighbor_id(self.rects, id, Direction::Down)
        }
    }

    /// The tree without a pane.
    pub open spec fn layout_without(self, id: PaneId) -> Node {
        if self.layout is Split && self.layout.has(id) {
            self.layout.without(id)
        } else {
            self.layout
        }
    }

    /// The tab without a pane, which is not its only one. The focus goes to the
    /// pane that takes its place.
    pub open spec fn without_pane(self, id: PaneId) -> TabModel {
        let layout = self.layout_without(id);
        let running = self.running.remove(id);
        let heir = self.heir(id);
        TabModel {
            layout,
            pending: less_pane(self.pending, id),
            dead: self.dead.remove(id),
            running,
            focused: if self.focused != id {
                self.focused
            } else if heir is Some && running.contains(heir->0) {
                heir->0
            } else {
                layout.order()[0]
            },
            ..self
        }
    }

    /// The tab with the focused pane split: a new one, which gets the focus, on a
    /// side of it.
    pub open spec fn split(self, id: PaneId, side: Direction, history: u128) -> TabModel {
        TabModel {
            layout: if self.layout.has(self.focused) {
                self.layout.with_split(self.focused, id, side)
            } else {
                self.layout
            },
            running: self.running.insert(id),
            histories: self.histories.insert(id, history),
            focused: id,
            ..self
        }
    }

    /// Whether the tab holds together: no pane twice, and the focus, the shells that
    /// run, wait or ended are all of panes of the layout.
    pub open spec fn wf(self) -> bool {
        &&& self.layout.order().no_duplicates()
        &&& self.layout.has(self.focused)
        &&& forall|id: PaneId| #[trigger] self.running.contains(id) ==> self.layout.has(id)
        &&& forall|id: PaneId| #[trigger] self.dead.contains(id) ==> self.layout.has(id)
        &&& forall|i: int| 0 <= i < self.pending.len() ==> self.layout.has(#[trigger] self.pending[i])
    }
}

/// Removing a pane keeps a tab together, and the pane is gone.
pub proof fn law_remove_pane(t: TabModel, id: PaneId)
    requires
        t.wf(),
        t.layout.order().len() > 1,
        t.layout.has(id),
    ensures
        t.without_pane(id).wf(),
        !t.without_pane(id).layout.has(id),
        forall|p: PaneId|
            p != id ==> #[trigger] t.without_pane(id).layout.has(p) == t.layout.has(p),
{
    let after = t.without_pane(id);
    let order = t.layout.order();
    law_order_holds(t.layout, id);
    let i = choose|i: int| 0 <= i < order.len() && order[i] == id;
    assert(t.layout is Split);
    law_remove_order(t.layout, id, i);
    let rest = order.remove(i);
    assert(after.layout.order() == rest);
    assert(rest.no_duplicates());
    assert forall|p: PaneId| p != id implies #[trigger] after.layout.has(p) == t.layout.has(p) by {
        law_order_holds(t.layout, p);
        law_order_holds(after.layout, p);
        if order.contains(p) {
            let j = choose|j: int| 0 <= j < order.len() && order[j] == p;
            assert(rest[if j < i {
                j
            } else {
                j - 1
            }] == p);
        }
        if rest.contains(p) {
            let j = choose|j: int| 0 <= j < rest.len() && rest[j] == p;
            assert(order[if j < i {
                j
            } else {
                j + 1
            }] == p);
        }
    }
    assert(!after.layout.has(id)) by {
        law_order_holds(after.layout, id);
        if rest.contains(id) {
            let j = choose|j: int| 0 <= j < rest.len() && rest[j] == id;
            assert(order[if j < i {
                j
            } else {
                j + 1
            }] == id);
        }
    }
    assert(after.layout.has(after.layout.order()[0])) by {
        law_order_holds(after.layout, after.layout.order()[0]);
        assert(after.layout.order().contains(after.layout.order()[0]));
    }
    assert forall|j: int| 0 <= j < after.pending.len() implies after.layout.has(
        #[trigger] after.pending[j],
    ) by {
        let p = other_pane(id);
        lemma_filtered(t.pending, p, j);
        let k = choose|k: int|
            0 <= k < t.pending.len() && t.pending[k] == t.pending.filter(p)[j];
        assert(t.layout.has(t.pending[k]));
    }
    assert forall|p: PaneId| #[trigger] after.dead.contains(p) implies after.layout.has(p) by {
        assert(t.dead.contains(p) && p != id);
    }
    assert forall|p: PaneId| #[trigger] after.running.contains(p) implies after.layout.has(p) by {
        assert(t.running.contains(p) && p != id);
    }
}

proof fn lemma_filtered(s: Seq<PaneId>, p: spec_fn(PaneId) -> bool, i: int)
    requires
        0 <= i < s.filter(p).len(),
    ensures
        p(s.filter(p)[i]),
        exists|k: int| 0 <= k < s.len() && s[k] == s.filter(p)[i],
    decreases s.len(),
{
    reveal(Seq::filter);
    if s.len() > 0 {
        let rest = s.drop_last();
        if i < rest.filter(p).len() {
            lemma_filtered(rest, p, i);
            let k = choose|k: int| 0 <= k < rest.len() && rest[k] == rest.filter(p)[i];
            assert(s[k] == s.filter(p)[i]);
        } else {
            assert(s[s.len() - 1] == s.filter(p)[i]);
        }
    }
}

/// Splitting with a pane that is new keeps a tab together, and the new pane is there.
pub proof fn law_split_pane(t: TabModel, id: PaneId, side: Direction, history: u128)
    requires
        t.wf(),
        !t.layout.has(id),
    ensures
        t.split(id, side, history).wf(),
        t.split(id, side, history).layout.has(id),
        forall|p: PaneId|
            p != id ==> #[trigger] t.split(id, side, history).layout.has(p) == t.layout.has(p),
{
    let after = t.split(id, side, history);
    lemma_split_has(t.layout, t.focused, id, side, id);
    lemma_split_distinct(t.layout, t.focused, id, side);
    assert forall|p: PaneId| p != id implies #[trigger] after.layout.has(p) == t.layout.has(p) by {
        lemma_split_has(t.layout, t.focused, id, side, p);
    }
    assert forall|p: PaneId| #[trigger] after.running.contains(p) implies after.layout.has(p) by {
        if p != id {
            assert(t.running.contains(p));
        }
    }
}

proof fn lemma_split_has(n: Node, target: PaneId, new: PaneId, side: Direction, p: PaneId)
    requires
        n.has(target),
    ensures
        n.with_split(target, new, side).has(p) == (n.has(p) || p == new),
    decreases n,
{
    match n {
        Node::Leaf(_) => {
            reveal_with_fuel(Node::has, 3);
        },
        Node::Split { a, b, .. } => {
            if a.has(target) {
                lemma_split_has(*a, target, new, side, p);
            } else {
                lemma_split_has(*b, target, new, side, p);
            }
        },
    }
}

proof fn lemma_split_distinct(n: Node, target: PaneId, new: PaneId, side: Direction)
    requires
        n.has(target),
        !n.has(new),
        n.order().no_duplicates(),
    ensures
        n.with_split(target, new, side).order().no_duplicates(),
    decreases n,
{
    let after = n.with_split(target, new, side);
    match n {
        Node::Leaf(_) => {
            reveal_with_fuel(Node::order, 2);
        },
        Node::Split { a, b, .. } => {
            let (la, lb) = (a.order(), b.order());
            assert(la =~= n.order().take(la.len() as int));
            assert(lb =~= n.order().skip(la.len() as int));
            assert forall|i: int, j: int| 0 <= i < la.len() && 0 <= j < lb.len() implies la[i]
                != lb[j] by {
                assert(n.order()[i] == la[i] && n.order()[la.len() + j] == lb[j]);
            }
            if a.has(target) {
                lemma_split_distinct(*a, target, new, side);
                let na = a.with_split(target, new, side);
                assert forall|i: int, j: int|
                    0 <= i < na.order().len() && 0 <= j < lb.len() implies na.order()[i] != lb[j] by {
                    let x = na.order()[i];
                    lemma_split_has(*a, target, new, side, x);
                    law_order_holds(na, x);
                    law_order_holds(*a, x);
                    law_order_holds(*b, lb[j]);
                    assert(na.order().contains(x));
                    assert(lb.contains(lb[j]));
                    if a.has(x) {
                        let k = choose|k: int| 0 <= k < la.len() && la[k] == x;
                        assert(la[k] != lb[j]);
                    }
                }
            } else {
                lemma_split_distinct(*b, target, new, side);
                let nb = b.with_split(target, new, side);
                assert forall|i: int, j: int|
                    0 <= i < la.len() && 0 <= j < nb.order().len() implies la[i] != nb.order()[j] by {
                    let x = nb.order()[j];
                    lemma_split_has(*b, target, new, side, x);
                    law_order_holds(nb, x);
                    law_order_holds(*b, x);
                    law_order_holds(*a, la[i]);
                    assert(nb.order().contains(x));
                    assert(la.contains(la[i]));
                    if b.has(x) {
                        let k = choose|k: int| 0 <= k < lb.len() && lb[k] == x;
                        assert(la[i] != lb[k]);
                    }
                }
            }
        },
    }
}

impl Tab {
    /// A tab of a tree of panes, the first of which has the focus.
    pub fn new(layout: Node) -> (r: Tab)
        ensures
            r@ == TabModel::fresh(layout),
    {
        let focused = layout.first_leaf();
        let r = Tab {
            name: None,
            color: None,
            layout,
            focused,
            rects: Vec::new(),
            profile: None,
            ssh: None,
            cwds: HashMap::new(),
            histories: HashMap::new(),
            dead: HashSet::new(),
            pending: Vec::new(),
            running: HashSet::new(),
            files: None,
            show_files: false,
        };
        assert(texts(r.cwds@) =~= Map::empty());
        assert(r@ =~= TabModel::fresh(layout));
        r
    }

    /// Notes the directory that a pane is in.
    pub fn note(&mut self, id: PaneId, cwd: String)
        ensures
            final(self)@ == (TabModel {
                cwds: old(self)@.cwds.insert(id, cwd@),
                ..old(self)@
            }),
            final(self)@ == old(self)@.noting(id, cwd@),
    {
        let ghost before = self.cwds@;
        self.cwds.insert(id, cwd);
        assert(texts(self.cwds@) =~= texts(before).insert(id, cwd@));
    }

    /// Snapshot of what should be saved for this tab; `seen` are the directories
    /// that its terminals are in.
    pub fn state(&mut self, seen: &Vec<(PaneId, String)>) -> (r: TabState)
        ensures
            final(self)@ == old(self)@.seeing(seen_views(seen@)),
            r@ == final(self)@.snapshot(),
    {
        let ghost m = self@;
        let ghost all = seen_views(seen@);
        let mut i: usize = 0;
        assert(all.take(0) =~= Seq::empty());
        while i < seen.len()
            invariant
                i <= seen@.len(),
                all == seen_views(seen@),
                self@ == m.seeing(all.take(i as int)),
            decreases seen.len() - i,
        {
            let id = seen[i].0;
            self.note(id, seen[i].1.clone());
            proof {
                assert(all.take(i + 1).drop_last() =~= all.take(i as int));
                assert(all.take(i + 1).last() == all[i as int]);
            }
            i += 1;
        }
        assert(all.take(i as int) =~= all);
        let order = self.layout.leaves();
        let at = find_pane(&order, self.focused);
        let focused: usize = if at < order.len() {
            at
        } else {
            0
        };
        TabState {
            name: clone_opt(&self.name),
            color: self.color,
            layout: self.layout_of(&self.layout),
            focused,
        }
    }

    /// The layout to save for a tree of panes.
    pub fn layout_of(&self, node: &Node) -> (r: Layout)
        ensures
            r@ == layout_of(*node, self@.cwds, self@.histories),
        decreases node,
    {
        match node {
            Node::Leaf(id) => Layout::Pane {
                cwd: match self.cwds.get(id) {
                    Some(cwd) => Some(cwd.clone()),
                    None => None,
                },
                history: match self.histories.get(id) {
                    Some(h) => Some(*h),
                    None => None,
                },
            },
            Node::Split { axis, ratio, a, b } => Layout::Split {
                axis: *axis,
                ratio: *ratio,
                a: Box::new(self.layout_of(a)),
                b: Box::new(self.layout_of(b)),
            },
        }
    }

    /// The history id of a pane, which gets a given one on first use.
    pub fn history_or(&mut self, id: PaneId, fresh: u128) -> (r: u128)
        ensures
            r == match entry(old(self)@.histories, id) {
                Some(h) => h,
                None => fresh,
            },
            final(self)@ == (TabModel {
                histories: old(self)@.histories.insert(id, r),
                ..old(self)@
            }),
            r == old(self)@.history_of(id, fresh),
            final(self)@ == old(self)@.with_history(id, r),
    {
        let known = match self.histories.get(&id) {
            Some(h) => Some(*h),
            None => None,
        };
        match known {
            Some(h) => {
                assert(self.histories@ =~= self.histories@.insert(id, h));
                h
            },
            None => {
                self.histories.insert(id, fresh);
                fresh
            },
        }
    }

    /// The history id of a pane, given on first use.
    pub fn history_id(&mut self, id: PaneId) -> (r: u128)
        ensures
            match entry(old(self)@.histories, id) {
                Some(h) => r == h,
                None => is_random(r),
            },
            final(self)@ == (TabModel {
                histories: old(self)@.histories.insert(id, r),
                ..old(self)@
            }),
            r == old(self)@.history_of(id, r),
            final(self)@ == old(self)@.with_history(id, r),
    {
        let fresh = fresh_id();
        self.history_or(id, fresh)
    }

    /// What the tab is called: its name, or the title of the focused program.
    pub fn title(&self, program: Option<&str>) -> (r: String)
        ensures
            r@ == self@.called(crate::paths::str_view(program)),
    {
        match (&self.name, program) {
            (Some(name), _) => name.clone(),
            (None, Some(title)) => title.to_owned(),
            (None, None) => "Terminal".to_owned(),
        }
    }

    fn heir(&self, id: PaneId) -> (r: Option<PaneId>)
        ensures
            r == self@.heir(id),
    {
        let left = neighbor(&self.rects, id, Direction::Left);
        if left.is_some() {
            return left;
        }
        let up = neighbor(&self.rects, id, Direction::Up);
        if up.is_some() {
            return up;
        }
        let right = neighbor(&self.rects, id, Direction::Right);
        if right.is_some() {
            return right;
        }
        neighbor(&self.rects, id, Direction::Down)
    }

    /// Removes a pane. Returns false when it was the last one (the tab should close).
    pub fn remove_pane(&mut self, id: PaneId) -> (removed: bool)
        ensures
            removed == (old(self)@.layout.order().len() > 1),
            final(self)@ == if removed {
                old(self)@.without_pane(id)
            } else {
                old(self)@
            },
            removed == old(self)@.can_lose_pane(),
    {
        let ghost m = self@;
        if self.layout.leaves().len() <= 1 {
            return false;
        }
        self.pending = drop_pane(&self.pending, id);
        self.dead.remove(&id);
        // Hand focus to the pane that visually takes its place.
        let next = self.heir(id);
        self.layout.remove(id);
        self.running.remove(&id);
        if self.focused == id {
            let first = self.layout.first_leaf();
            self.focused = match next {
                Some(n) => if self.running.contains(&n) {
                    n
                } else {
                    first
                },
                None => first,
            };
        }
        assert(self@ =~= m.without_pane(id));
        true
    }

    /// Splits the focused pane: a new one, with a terminal and a history, on a side of it.
    pub fn add_split(&mut self, id: PaneId, side: Direction, history: u128)
        ensures
            final(self)@ == old(self)@.split(id, side, history),
    {
        let ghost m = self@;
        let focused = self.focused;
        self.layout.split(focused, id, side);
        self.running.insert(id);
        self.histories.insert(id, history);
        self.focused = id;
        assert(self@ =~= m.split(id, side, history));
    }

    /// Notes the terminal of a pane, with its history.
    pub fn started_with(&mut self, id: PaneId, history: u128)
        ensures
            final(self)@ == (TabModel {
                running: old(self)@.running.insert(id),
                histories: old(self)@.histories.insert(id, history),
                ..old(self)@
            }),
            final(self)@ == old(self)@.with_running(id).with_history(id, history),
    {
        self.running.insert(id);
        self.histories.insert(id, history);
    }

    /// Notes the terminal of a pane that was started: it waits or is dead no more.
    pub fn started(&mut self, id: PaneId)
        ensures
            final(self)@ == (TabModel {
                running: old(self)@.running.insert(id),
                dead: old(self)@.dead.remove(id),
                pending: less_pane(old(self)@.pending, id),
                ..old(self)@
            }),
            final(self)@ == old(self)@.with_restarted(id),
    {
        self.running.insert(id);
        self.dead.remove(&id);
        self.pending = drop_pane(&self.pending, id);
    }

    /// Moves the focus to the neighbour in a direction, if there is one.
    pub fn focus_neighbor(&mut self, dir: Direction) -> (moved: bool)
        ensures
            moved == (neighbor_id(old(self)@.rects, old(self)@.focused, dir) is Some),
            final(self)@ == match neighbor_id(old(self)@.rects, old(self)@.focused, dir) {
                Some(id) => TabModel { focused: id, ..old(self)@ },
                None => old(self)@,
            },
    {
        match neighbor(&self.rects, self.focused, dir) {
            Some(id) => {
                self.focused = id;
                true
            },
            None => false,
        }
    }
}

impl TabModel {
    /// With the directory of a pane.
    pub open spec fn noting(self, id: PaneId, cwd: Seq<char>) -> TabModel {
        TabModel { cwds: self.cwds.insert(id, cwd), ..self }
    }

    /// The history of a pane: its own, or a fresh one.
    pub open spec fn history_of(self, id: PaneId, fresh: u128) -> u128 {
        match entry(self.histories, id) {
            Some(h) => h,
            None => fresh,
        }
    }

    /// With the history of a pane.
    pub open spec fn with_history(self, id: PaneId, history: u128) -> TabModel {
        TabModel { histories: self.histories.insert(id, history), ..self }
    }

    /// With a shell running in a pane.
    pub open spec fn with_running(self, id: PaneId) -> TabModel {
        TabModel { running: self.running.insert(id), ..self }
    }

    /// With a pane whose connection ended.
    pub open spec fn with_dead(self, id: PaneId) -> TabModel {
        TabModel { dead: self.dead.insert(id), ..self }
    }

    /// With a shell running in a pane again.
    pub open spec fn with_restarted(self, id: PaneId) -> TabModel {
        TabModel {
            running: self.running.insert(id),
            dead: self.dead.remove(id),
            pending: less_pane(self.pending, id),
            ..self
        }
    }

    /// With its files shown, or its terminals.
    pub open spec fn with_files(self, show: bool, fresh: FileManagerModel) -> TabModel {
        TabModel {
            show_files: show,
            files: if show && self.files is None {
                Some(fresh)
            } else {
                self.files
            },
            ..self
        }
    }

    /// Whether one of its panes can go without the tab.
    pub open spec fn can_lose_pane(self) -> bool {
        self.layout.order().len() > 1
    }
}

} // verus!
