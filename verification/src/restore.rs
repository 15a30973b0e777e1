//! Rebuilding a tab from what was saved of it.

use crate::config::{law_dirs_count, Layout, LayoutModel, TabState, TabStateModel};
use crate::pane::{Node, PaneId};
use crate::tab::{entry, layout_of, texts, Tab, TabModel};
use crate::text::clone_opt;
use std::collections::HashMap;
use vstd::prelude::*;

verus! {

broadcast use vstd::std_specs::hash::group_hash_axioms;

/// The tree of a saved layout, whose panes are numbered from `next` on.
pub open spec fn built(l: LayoutModel, next: int) -> Node
    decreases l,
{
    match l {
        LayoutModel::Pane { .. } => Node::Leaf(next as u64),
        LayoutModel::Split { axis, ratio, a, b } => Node::Split {
            axis,
            ratio: ratio.clamped(),
            a: Box::new(built(*a, next)),
            b: Box::new(built(*b, next + a.count())),
        },
    }
}

/// The directories of panes, with those of a layout whose panes are numbered from
/// `next` on.
pub open spec fn built_dirs(l: LayoutModel, next: int, m: Map<PaneId, Seq<char>>) -> Map<
    PaneId,
    Seq<char>,
>
    decreases l,
{
    match l {
        LayoutModel::Pane { cwd, .. } => match cwd {
            Some(d) => m.insert(next as u64, d),
            None => m,
        },
        LayoutModel::Split { a, b, .. } => built_dirs(*b, next + a.count(), built_dirs(*a, next, m)),
    }
}

/// The histories of panes, with those of a layout whose panes are numbered from
/// `next` on.
pub open spec fn built_histories(l: LayoutModel, next: int, m: Map<PaneId, u128>) -> Map<
    PaneId,
    u128,
>
    decreases l,
{
    match l {
        LayoutModel::Pane { history, .. } => match history {
            Some(h) => m.insert(next as u64, h),
            None => m,
        },
        LayoutModel::Split { a, b, .. } => built_histories(
            *b,
            next + a.count(),
            built_histories(*a, next, m),
        ),
    }
}

/// A layout with every ratio in range.
pub open spec fn in_range(l: LayoutModel) -> LayoutModel
    decreases l,
{
    match l {
        LayoutModel::Pane { .. } => l,
        LayoutModel::Split { axis, ratio, a, b } => LayoutModel::Split {
            axis,
            ratio: ratio.clamped(),
            a: Box::new(in_range(*a)),
            b: Box::new(in_range(*b)),
        },
    }
}

/// The panes of a rebuilt tree are numbered in layout order.
pub proof fn law_build_order(l: LayoutModel, next: int)
    requires
        0 <= next,
        next + l.count() <= u64::MAX,
    ensures
        built(l, next).order() == Seq::new(l.count(), |i: int| (next + i) as u64),
        built(l, next).order().no_duplicates(),
    decreases l,
{
    law_dirs_count(l);
    let n = built(l, next);
    match l {
        LayoutModel::Pane { .. } => {
            assert(n.order() =~= Seq::new(1, |i: int| (next + i) as u64));
        },
        LayoutModel::Split { a, b, .. } => {
            law_build_order(*a, next);
            law_build_order(*b, next + a.count());
            assert(n.order() =~= Seq::new(l.count(), |i: int| (next + i) as u64));
        },
    }
}

/// A rebuilt tree has the panes numbered from `next` on, and no other.
pub proof fn law_build_has(l: LayoutModel, next: int, p: PaneId)
    requires
        0 <= next,
        next + l.count() <= u64::MAX,
    ensures
        built(l, next).has(p) == (next <= p < next + l.count()),
    decreases l,
{
    if let LayoutModel::Split { a, b, .. } = l {
        law_dirs_count(*a);
        law_dirs_count(*b);
        law_build_has(*a, next, p);
        law_build_has(*b, next + a.count(), p);
    }
}

/// Numbering the panes of a layout leaves the other panes' entries as they are.
proof fn lemma_built_elsewhere(
    l: LayoutModel,
    next: int,
    m: Map<PaneId, Seq<char>>,
    h: Map<PaneId, u128>,
    k: PaneId,
)
    requires
        0 <= next,
        next + l.count() <= u64::MAX,
        k < next || k >= next + l.count(),
    ensures
        entry(built_dirs(l, next, m), k) == entry(m, k),
        entry(built_histories(l, next, h), k) == entry(h, k),
    decreases l,
{
    law_dirs_count(l);
    if let LayoutModel::Split { a, b, .. } = l {
        law_dirs_count(*a);
        law_dirs_count(*b);
        lemma_built_elsewhere(*a, next, m, h, k);
        lemma_built_elsewhere(
            *b,
            next + a.count(),
            built_dirs(*a, next, m),
            built_histories(*a, next, h),
            k,
        );
    }
}

/// The layout saved of a tree depends only on the entries of its panes.
proof fn lemma_layout_of(
    n: Node,
    m: Map<PaneId, Seq<char>>,
    h: Map<PaneId, u128>,
    m2: Map<PaneId, Seq<char>>,
    h2: Map<PaneId, u128>,
)
    requires
        forall|p: PaneId| #[trigger] n.has(p) ==> entry(m, p) == entry(m2, p) && entry(h, p) == entry(h2, p),
    ensures
        layout_of(n, m, h) == layout_of(n, m2, h2),
    decreases n,
{
    match n {
        Node::Leaf(id) => {
            assert(n.has(id));
        },
        Node::Split { a, b, .. } => {
            assert forall|p: PaneId| #[trigger] a.has(p) implies entry(m, p) == entry(m2, p)
                && entry(h, p) == entry(h2, p) by {
                assert(n.has(p));
            }
            assert forall|p: PaneId| #[trigger] b.has(p) implies entry(m, p) == entry(m2, p)
                && entry(h, p) == entry(h2, p) by {
                assert(n.has(p));
            }
            lemma_layout_of(*a, m, h, m2, h2);
            lemma_layout_of(*b, m, h, m2, h2);
        },
    }
}

/// What is saved of a rebuilt tab is the layout it was rebuilt from, its ratios in
/// range: restoring loses no pane, directory or history.
pub proof fn law_build_restores(
    l: LayoutModel,
    next: int,
    m: Map<PaneId, Seq<char>>,
    h: Map<PaneId, u128>,
)
    requires
        0 <= next,
        next + l.count() <= u64::MAX,
        forall|k: PaneId| k >= next ==> !#[trigger] m.contains_key(k) && !h.contains_key(k),
    ensures
        layout_of(built(l, next), built_dirs(l, next, m), built_histories(l, next, h)) == in_range(l),
    decreases l,
{
    law_dirs_count(l);
    match l {
        LayoutModel::Pane { cwd, history } => {
            assert(!m.contains_key(next as u64));
            assert(!h.contains_key(next as u64));
        },
        LayoutModel::Split { axis, ratio, a, b } => {
            law_dirs_count(*a);
            law_dirs_count(*b);
            let mid = next + a.count();
            let (ma, ha) = (built_dirs(*a, next, m), built_histories(*a, next, h));
            let (mb, hb) = (built_dirs(*b, mid, ma), built_histories(*b, mid, ha));
            law_build_restores(*a, next, m, h);
            assert forall|k: PaneId| k >= mid implies !#[trigger] ma.contains_key(k)
                && !ha.contains_key(k) by {
                lemma_built_elsewhere(*a, next, m, h, k);
                assert(!m.contains_key(k));
            }
            law_build_restores(*b, mid, ma, ha);
            assert forall|p: PaneId| #[trigger] built(*a, next).has(p) implies entry(ma, p) == entry(
                mb,
                p,
            ) && entry(ha, p) == entry(hb, p) by {
                law_build_has(*a, next, p);
                lemma_built_elsewhere(*b, mid, ma, ha, p);
            }
            lemma_layout_of(built(*a, next), ma, ha, mb, hb);
        },
    }
}

/// Turns a saved layout into a tree with fresh pane ids, collecting each pane's directory and history.
pub fn build(
    layout: &Layout,
    next: &mut PaneId,
    cwds: &mut HashMap<PaneId, String>,
    histories: &mut HashMap<PaneId, u128>,
) -> (r: Node)
    requires
        *old(next) + layout@.count() <= u64::MAX,
    ensures
        r == built(layout@, *old(next) as int),
        *final(next) == *old(next) + layout@.count(),
        texts(final(cwds)@) == built_dirs(layout@, *old(next) as int, texts(old(cwds)@)),
        final(histories)@ == built_histories(layout@, *old(next) as int, old(histories)@),
    decreases layout,
{
    match layout {
        Layout::Pane { cwd, history } => {
            let id = *next;
            *next = id + 1;
            if let Some(cwd) = cwd {
                let ghost before = cwds@;
                let dir = cwd.clone();
                cwds.insert(id, dir);
                assert(texts(cwds@) =~= texts(before).insert(id, cwd@));
            }
            if let Some(history) = history {
                histories.insert(id, *history);
            }
            Node::Leaf(id)
        },
        Layout::Split { axis, ratio, a, b } => {
            proof {
                law_dirs_count(a@);
                law_dirs_count(b@);
            }
            let left = build(a, next, cwds, histories);
            let right = build(b, next, cwds, histories);
            Node::Split {
                axis: *axis,
                ratio: ratio.clamp(),
                a: Box::new(left),
                b: Box::new(right),
            }
        },
    }
}

/// The tab of a saved state, its panes numbered from `next` on. Its shells have not
/// started yet.
pub open spec fn rebuilt(state: TabStateModel, next: int, profile: Option<u128>) -> TabModel {
    let layout = built(state.layout, next);
    let order = layout.order();
    TabModel {
        name: state.name,
        color: state.color,
        focused: if state.focused < order.len() {
            order[state.focused as int]
        } else {
            order[0]
        },
        pending: order,
        cwds: built_dirs(state.layout, next, Map::empty()),
        histories: built_histories(state.layout, next, Map::empty()),
        profile,
        ..TabModel::fresh(layout)
    }
}

/// Rebuilds the tab of a saved state. Shells start lazily: see `Tab::pending`.
pub fn rebuild(state: &TabState, next: &mut PaneId, profile: Option<u128>) -> (r: Tab)
    requires
        *old(next) + state@.layout.count() <= u64::MAX,
    ensures
        r@ == rebuilt(state@, *old(next) as int, profile),
        *final(next) == *old(next) + state@.layout.count(),
{
    let mut cwds: HashMap<PaneId, String> = HashMap::new();
    let mut histories: HashMap<PaneId, u128> = HashMap::new();
    assert(texts(cwds@) =~= Map::empty());
    let layout = build(&state.layout, next, &mut cwds, &mut histories);
    let mut tab = Tab::new(layout);
    tab.pending = tab.layout.leaves();
    tab.cwds = cwds;
    tab.histories = histories;
    let order = tab.layout.leaves();
    if state.focused < order.len() {
        tab.focused = order[state.focused];
    }
    tab.name = clone_opt(&state.name);
    tab.color = state.color;
    tab.profile = profile;
    assert(tab@ =~= rebuilt(state@, *old(next) as int, profile));
    tab
}

/// A rebuilt tab holds together, and its panes are the new ones.
pub proof fn law_rebuilt(state: TabStateModel, next: int, profile: Option<u128>, p: PaneId)
    requires
        0 <= next,
        next + state.layout.count() <= u64::MAX,
    ensures
        rebuilt(state, next, profile).wf(),
        rebuilt(state, next, profile).layout.has(p) == (next <= p < next + state.layout.count()),
{
    law_build_order(state.layout, next);
    law_dirs_count(state.layout);
    let t = rebuilt(state, next, profile);
    law_build_has(state.layout, next, p);
    law_build_has(state.layout, next, t.focused);
    assert forall|i: int| 0 <= i < t.pending.len() implies t.layout.has(#[trigger] t.pending[i]) by {
        law_build_has(state.layout, next, t.pending[i]);
    }
}

/// What is saved of a rebuilt tab is the state it was rebuilt from, its ratios in
/// range and its focus on a pane that exists.
pub proof fn law_state_round_trip(state: TabStateModel, next: int, profile: Option<u128>)
    requires
        0 <= next,
        next + state.layout.count() <= u64::MAX,
    ensures
        rebuilt(state, next, profile).snapshot() == (TabStateModel {
            layout: in_range(state.layout),
            focused: if state.focused < state.layout.count() {
                state.focused
            } else {
                0
            },
            ..state
        }),
{
    let t = rebuilt(state, next, profile);
    let order = t.layout.order();
    law_build_order(state.layout, next);
    law_dirs_count(state.layout);
    law_build_restores(state.layout, next, Map::empty(), Map::empty());
    let at = if state.focused < order.len() {
        state.focused as int
    } else {
        0
    };
    assert(order[at] == t.focused);
    crate::tab::lemma_pane_place(order, t.focused, at);
    assert(order.contains(t.focused));
}

} // verus!
