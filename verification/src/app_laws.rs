//! What opening and closing tabs and panes keeps: every pane in one tab, the focus
//! on a pane that exists, the tab shown among the tabs; and that what is closed can
//! be opened again as it was.

use crate::app::{
    lemma_profile_tab, lemma_profile_tab_is, not_of, profile_tab, shifted, ssh_tab, AppModel,
};
use crate::arrange::profile_ids;
use crate::config::{SessionTabModel, TabStateModel, MAX_CLOSED};
use crate::find::{has_profile, profile_place};
use crate::ids::lemma_place;
use crate::pane::{Direction, Node, PaneId};
use crate::restore::{in_range, law_rebuilt, law_state_round_trip, rebuilt};
use crate::tab::{law_remove_pane, law_split_pane, TabModel};
use vstd::prelude::*;

verus! {

/// Whether a pane is in the tab of an index.
pub open spec fn holds(m: AppModel, i: int, p: PaneId) -> bool {
    m.tabs[i].layout.has(p)
}

impl AppModel {
    /// Whether the window holds together.
    pub open spec fn wf(self) -> bool {
        &&& forall|i: int| 0 <= i < self.tabs.len() ==> (#[trigger] self.tabs[i]).wf()
        &&& forall|i: int, p: PaneId|
            0 <= i < self.tabs.len() && #[trigger] holds(self, i, p) ==> p < self.next_pane
        &&& forall|i: int, j: int, p: PaneId|
            0 <= i < j < self.tabs.len() && #[trigger] holds(self, i, p) ==> !#[trigger] holds(
                self,
                j,
                p,
            )
        &&& self.tabs.len() <= usize::MAX
        &&& if self.tabs.len() == 0 {
            self.active == 0
        } else {
            self.active < self.tabs.len()
        }
    }
}

/// Adding a tab of new panes keeps the window together.
pub proof fn law_adding(m: AppModel, tab: TabModel, next: PaneId)
    requires
        m.wf(),
        m.tabs.len() < usize::MAX,
        tab.wf(),
        m.next_pane <= next,
        forall|p: PaneId| #[trigger] tab.layout.has(p) ==> m.next_pane <= p < next,
    ensures
        m.adding(tab, next).wf(),
{
    let after = m.adding(tab, next);
    let n = m.tabs.len() as int;
    assert(after.tabs[n] == tab);
    assert forall|i: int| 0 <= i < after.tabs.len() implies (#[trigger] after.tabs[i]).wf() by {
        if i < n {
            assert(after.tabs[i] == m.tabs[i]);
        }
    }
    assert forall|i: int, p: PaneId|
        0 <= i < after.tabs.len() && #[trigger] holds(after, i, p) implies p < after.next_pane by {
        if i < n {
            assert(holds(m, i, p));
        } else {
            assert(tab.layout.has(p));
        }
    }
    assert forall|i: int, j: int, p: PaneId|
        0 <= i < j < after.tabs.len() && #[trigger] holds(after, i, p) implies !#[trigger] holds(
        after,
        j,
        p,
    ) by {
        assert(holds(m, i, p));
        if j < n {
            assert(!holds(m, j, p));
        } else {
            assert(!tab.layout.has(p));
        }
    }
}

/// Changing a tab, whose panes are some of its own and new ones, keeps the window
/// together.
pub proof fn law_updating(m: AppModel, i: int, tab: TabModel, next: PaneId)
    requires
        m.wf(),
        0 <= i < m.tabs.len(),
        tab.wf(),
        m.next_pane <= next,
        forall|p: PaneId| #[trigger]
            tab.layout.has(p) ==> m.tabs[i].layout.has(p) || m.next_pane <= p < next,
    ensures
        (AppModel { tabs: m.tabs.update(i, tab), next_pane: next, ..m }).wf(),
{
    let after = AppModel { tabs: m.tabs.update(i, tab), next_pane: next, ..m };
    assert forall|j: int, p: PaneId|
        0 <= j < after.tabs.len() && #[trigger] holds(after, j, p) implies p < after.next_pane by {
        if j == i {
            assert(tab.layout.has(p));
            if m.tabs[i].layout.has(p) {
                assert(holds(m, i, p));
            }
        } else {
            assert(holds(m, j, p));
        }
    }
    assert forall|j: int, k: int, p: PaneId|
        0 <= j < k < after.tabs.len() && #[trigger] holds(after, j, p) implies !#[trigger] holds(
        after,
        k,
        p,
    ) by {
        if holds(after, k, p) {
            if j == i {
                assert(tab.layout.has(p));
                assert(holds(m, k, p));
                assert(holds(m, i, p));
            } else if k == i {
                assert(tab.layout.has(p));
                assert(holds(m, j, p));
                assert(holds(m, i, p));
            } else {
                assert(holds(m, j, p));
                assert(!holds(m, k, p));
            }
        }
    }
}

/// Opening a saved tab keeps the window together.
pub proof fn law_open_tab(m: AppModel, state: TabStateModel, profile: Option<u128>)
    requires
        m.wf(),
        m.tabs.len() < usize::MAX,
        m.next_pane + state.layout.count() <= u64::MAX,
    ensures
        m.opening(state, profile).wf(),
{
    let next = m.next_pane as int;
    let tab = rebuilt(state, next, m.existing(profile));
    law_rebuilt(state, next, m.existing(profile), 0);
    assert forall|p: PaneId| #[trigger] tab.layout.has(p) implies m.next_pane <= p < (m.next_pane
        + state.layout.count()) as u64 by {
        law_rebuilt(state, next, m.existing(profile), p);
    }
    law_adding(m, tab, (m.next_pane + state.layout.count()) as u64);
}

/// A tab of one pane holds together.
proof fn lemma_single(tab: TabModel, id: PaneId)
    requires
        tab.layout == Node::Leaf(id),
        tab.focused == id,
        tab.dead == Set::<PaneId>::empty(),
        tab.running == Set::<PaneId>::empty() || tab.running == Set::<PaneId>::empty().insert(id),
        tab.pending == Seq::<PaneId>::empty() || tab.pending == seq![id],
    ensures
        tab.wf(),
{
}

/// A new tab keeps the window together.
pub proof fn law_new_tab(m: AppModel, history: u128)
    requires
        m.wf(),
        m.tabs.len() < usize::MAX,
        m.next_pane < u64::MAX,
    ensures
        m.with_new_tab(history).wf(),
{
    let id = m.next_pane;
    let tab = TabModel {
        running: Set::empty().insert(id),
        histories: Map::empty().insert(id, history),
        ..TabModel::fresh(Node::Leaf(id))
    };
    lemma_single(tab, id);
    law_adding(m, tab, (id + 1) as u64);
}

/// Showing a tab keeps the window together.
pub proof fn law_select(m: AppModel, index: usize)
    requires
        m.wf(),
    ensures
        m.selecting(index).wf(),
{
    lemma_same_tabs(m, m.selecting(index));
}

/// Opening an SSH host keeps the window together.
pub proof fn law_open_ssh(m: AppModel, id: u128)
    requires
        m.wf(),
        m.tabs.len() < usize::MAX,
        m.next_pane < u64::MAX,
    ensures
        m.opening_ssh(id).wf(),
{
    let h = crate::find::host_place(m.config.ssh, id);
    if ssh_tab(m.tabs, id) >= m.tabs.len() && h < m.config.ssh.len() {
        lemma_single(m.host_tab(h), m.next_pane);
        law_adding(m, m.host_tab(h), (m.next_pane + 1) as u64);
    } else {
        law_select(m, ssh_tab(m.tabs, id) as usize);
    }
}

/// Opening a profile keeps the window together, and shows a tab of it.
pub proof fn law_open_profile(m: AppModel, id: u128)
    requires
        m.wf(),
        m.tabs.len() < usize::MAX,
        has_profile(m.config.profiles, id),
        m.next_pane + m.config.profiles[profile_place(m.config.profiles, id)].tab.layout.count()
            <= u64::MAX,
    ensures
        m.opening_profile(id).wf(),
        m.opening_profile(id).active < m.opening_profile(id).tabs.len(),
        m.opening_profile(id).tabs[m.opening_profile(id).active as int].profile == Some(id),
{
    let p = profile_place(m.config.profiles, id);
    lemma_place(profile_ids(m.config.profiles), id);
    lemma_profile_tab_is(m.tabs, id);
    if profile_tab(m.tabs, id) >= m.tabs.len() {
        law_open_tab(m, m.config.profiles[p].tab, Some(id));
    } else {
        law_select(m, profile_tab(m.tabs, id) as usize);
    }
}

/// Whether every profile is open in one tab at most.
pub open spec fn open_once(m: AppModel) -> bool {
    forall|i: int, j: int|
        0 <= i < j < m.tabs.len() && (#[trigger] m.tabs[i]).profile is Some ==> m.tabs[i].profile
            != (#[trigger] m.tabs[j]).profile
}

/// A profile is open at most once, however often it is opened or reopened.
pub proof fn law_profile_open_once(m: AppModel, id: u128, index: usize)
    requires
        open_once(m),
    ensures
        open_once(m.opening_profile(id)),
        open_once(m.reopening(index)),
{
    lemma_opening_once(m, id);
    if index < m.closed.len() {
        let r = AppModel { closed: m.closed.remove(index as int), ..m };
        assert(open_once(r));
        if let Some(p) = r.existing(m.closed[index as int].profile) {
            lemma_opening_once(r, p);
        }
    }
}

proof fn lemma_opening_once(m: AppModel, id: u128)
    requires
        open_once(m),
    ensures
        open_once(m.opening_profile(id)),
{
    lemma_profile_tab_is(m.tabs, id);
}

/// Splitting a pane keeps the window together.
pub proof fn law_split(m: AppModel, index: usize, side: Direction, history: u128)
    requires
        m.wf(),
        m.next_pane < u64::MAX,
    ensures
        m.splitting(index, side, history).wf(),
{
    if index < m.tabs.len() {
        let t = m.tabs[index as int];
        let id = m.next_pane;
        assert(!t.layout.has(id)) by {
            if t.layout.has(id) {
                assert(holds(m, index as int, id));
            }
        }
        law_split_pane(t, id, side, history);
        let s = t.split(id, side, history);
        assert forall|p: PaneId| #[trigger] s.layout.has(p) implies t.layout.has(p) || m.next_pane
            <= p < (id + 1) as u64 by {}
        law_updating(m, index as int, s, (id + 1) as u64);
        let after = AppModel {
            tabs: m.tabs.update(index as int, s),
            next_pane: (id + 1) as u64,
            ..m
        };
        lemma_same_tabs(after, m.splitting(index, side, history));
    }
}

/// What the window holds together by is its tabs and the next pane.
pub proof fn lemma_same_tabs(m: AppModel, n: AppModel)
    requires
        m.wf(),
        n.tabs == m.tabs,
        n.next_pane == m.next_pane,
        if n.tabs.len() == 0 {
            n.active == 0
        } else {
            n.active < n.tabs.len()
        },
    ensures
        n.wf(),
{
    assert forall|i: int, p: PaneId| 0 <= i < n.tabs.len() && #[trigger] holds(n, i, p) implies p
        < n.next_pane by {
        assert(holds(m, i, p));
    }
    assert forall|i: int, j: int, p: PaneId|
        0 <= i < j < n.tabs.len() && #[trigger] holds(n, i, p) implies !#[trigger] holds(n, j, p) by {
        assert(holds(m, i, p));
        assert(!holds(m, j, p));
    }
}

/// Closing a tab keeps the window together.
pub proof fn law_close_tab(m: AppModel, index: usize, seen: Seq<(PaneId, Seq<char>)>)
    requires
        m.wf(),
    ensures
        m.closing_tab(index, seen).wf(),
{
    if index < m.tabs.len() {
        let after = m.closing_tab(index, seen);
        let k = index as int;
        assert(after.tabs == m.tabs.remove(k));
        assert forall|i: int| 0 <= i < after.tabs.len() implies (#[trigger] after.tabs[i]).wf() by {
            assert(after.tabs[i] == m.tabs[if i < k {
                i
            } else {
                i + 1
            }]);
        }
        assert forall|i: int, p: PaneId|
            0 <= i < after.tabs.len() && #[trigger] holds(after, i, p) implies p
            < after.next_pane by {
            assert(holds(
                m,
                if i < k {
                    i
                } else {
                    i + 1
                },
                p,
            ));
        }
        assert forall|i: int, j: int, p: PaneId|
            0 <= i < j < after.tabs.len() && #[trigger] holds(after, i, p) implies !#[trigger] holds(
            after,
            j,
            p,
        ) by {
            let a = if i < k {
                i
            } else {
                i + 1
            };
            let b = if j < k {
                j
            } else {
                j + 1
            };
            assert(holds(m, a, p));
            assert(!holds(m, b, p));
        }
    }
}

/// Closing a pane keeps the window together, and the pane is gone.
pub proof fn law_close_pane(
    m: AppModel,
    index: usize,
    pane: PaneId,
    seen: Seq<(PaneId, Seq<char>)>,
    i: int,
)
    requires
        m.wf(),
        index < m.tabs.len(),
        m.tabs[index as int].layout.has(pane),
        0 <= i < m.closing_pane(index, pane, seen).tabs.len(),
    ensures
        m.closing_pane(index, pane, seen).wf(),
        !m.closing_pane(index, pane, seen).tabs[i].layout.has(pane),
{
    let t = m.tabs[index as int];
    let k = index as int;
    let after = m.closing_pane(index, pane, seen);
    assert(holds(m, k, pane));
    if t.layout.order().len() <= 1 {
        law_close_tab(m, index, seen);
        let j = if i < k {
            i
        } else {
            i + 1
        };
        assert(after.tabs[i] == m.tabs[j]);
        if j < k {
            if holds(m, j, pane) {
                assert(!holds(m, k, pane));
            }
            assert(!holds(m, j, pane));
        } else {
            assert(!holds(m, j, pane));
        }
    } else {
        law_remove_pane(t, pane);
        let s = t.without_pane(pane);
        assert forall|p: PaneId| #[trigger] s.layout.has(p) implies t.layout.has(p) || m.next_pane
            <= p < m.next_pane by {
            if p == pane {
                assert(!s.layout.has(pane));
            }
        }
        law_updating(m, k, s, m.next_pane);
        let u = AppModel { tabs: m.tabs.update(k, s), next_pane: m.next_pane, ..m };
        lemma_same_tabs(u, after);
        if i != k {
            assert(after.tabs[i] == m.tabs[i]);
            if i < k {
                if holds(m, i, pane) {
                    assert(!holds(m, k, pane));
                }
                assert(!holds(m, i, pane));
            } else {
                assert(!holds(m, i, pane));
            }
        }
    }
}

/// At most so many closed tabs are remembered.
pub proof fn law_closed_bounded(m: AppModel, index: usize, seen: Seq<(PaneId, Seq<char>)>)
    requires
        m.closed.len() <= MAX_CLOSED,
    ensures
        m.closing_tab(index, seen).closed.len() <= MAX_CLOSED,
{
    if index < m.tabs.len() {
        let profile = m.tabs[index as int].profile;
        lemma_filter_len(m.closed, not_of(profile));
    }
}

proof fn lemma_filter_len(s: Seq<SessionTabModel>, p: spec_fn(SessionTabModel) -> bool)
    ensures
        s.filter(p).len() <= s.len(),
    decreases s.len(),
{
    reveal(Seq::filter);
    if s.len() > 0 {
        lemma_filter_len(s.drop_last(), p);
    }
}

/// Whatever points at a tab keeps pointing at the same tab when another one is
/// closed.
pub proof fn law_shifted(m: AppModel, index: usize, seen: Seq<(PaneId, Seq<char>)>, i: usize)
    requires
        index < m.tabs.len(),
        i < m.tabs.len(),
        m.tabs.len() <= usize::MAX,
    ensures
        (shifted(i, index) is None) == (i == index),
        shifted(i, index) matches Some(j) ==> j < m.closing_tab(index, seen).tabs.len()
            && m.closing_tab(index, seen).tabs[j as int] == m.tabs[i as int],
{
}

/// A profile that is closed and reopened comes back as it was: the same panes,
/// directories, histories, name and color (ratios in range).
pub proof fn law_close_then_reopen(
    m: AppModel,
    index: usize,
    id: u128,
    seen: Seq<(PaneId, Seq<char>)>,
)
    requires
        m.wf(),
        open_once(m),
        index < m.tabs.len(),
        m.tabs[index as int].profile == Some(id),
        has_profile(m.config.profiles, id),
        m.closed.len() <= MAX_CLOSED,
        m.next_pane + m.tabs[index as int].seeing(seen).snapshot().layout.count() <= u64::MAX,
    ensures
        ({
            let closed = m.closing_tab(index, seen);
            let again = closed.reopening((closed.closed.len() - 1) as usize);
            let state = m.tabs[index as int].seeing(seen).snapshot();
            &&& again.tabs.len() == m.tabs.len()
            &&& again.tabs.last().profile == Some(id)
            &&& again.tabs.last().snapshot().name == state.name
            &&& again.tabs.last().snapshot().color == state.color
            &&& again.tabs.last().snapshot().layout == in_range(state.layout)
        }),
{
    let closed = m.closing_tab(index, seen);
    let state = m.tabs[index as int].seeing(seen).snapshot();
    let ids = profile_ids(m.config.profiles);
    lemma_place(ids, id);
    lemma_filter_len(m.closed, not_of(Some(id)));
    assert(profile_ids(closed.config.profiles) =~= ids);
    let p = profile_place(m.config.profiles, id);
    assert(closed.config.profiles[p].tab == state);
    let last = (closed.closed.len() - 1) as usize;
    assert(closed.closed[last as int].profile == Some(id));
    let r = AppModel { closed: closed.closed.remove(last as int), ..closed };
    assert(r.existing(Some(id)) == Some(id));
    assert forall|j: int| 0 <= j < r.tabs.len() implies (#[trigger] r.tabs[j]).profile != Some(id) by {
        let k = if j < index {
            j
        } else {
            j + 1
        };
        assert(r.tabs[j] == m.tabs[k]);
        assert(m.tabs[k].profile is Some ==> m.tabs[k].profile != m.tabs[index as int].profile);
    }
    lemma_profile_tab(r.tabs, id, r.tabs.len() as int);
    law_state_round_trip(state, r.next_pane as int, Some(id));
}

} // verus!
