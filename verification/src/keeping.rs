//! What everything that happens to the window keeps: it holds together, and a
//! profile is open in one tab at most.

use crate::actions::host_tab_colored;
use crate::app::AppModel;
use crate::app_laws::{
    holds, law_close_pane, law_close_tab, law_updating, lemma_same_tabs, open_once,
};
use crate::color::Color;
use crate::config::ConfigModel;
use crate::hosts::tab_disowned;
use crate::pane::PaneId;
use crate::profiles::{tab_colored, tab_named, tab_without};
use crate::session::{following, synced};
use crate::tab::TabModel;
use vstd::prelude::*;

verus! {

/// Whether two tabs have the same panes, in the same state.
pub open spec fn same_panes(a: TabModel, b: TabModel) -> bool {
    &&& a.layout == b.layout
    &&& a.focused == b.focused
    &&& a.running == b.running
    &&& a.dead == b.dead
    &&& a.pending == b.pending
}

/// Whether a tab is of the same profile as another, or of none.
pub open spec fn no_other_profile(a: TabModel, b: TabModel) -> bool {
    a.profile is None || a.profile == b.profile
}

/// Whether one window has the tabs of another, as far as their panes go.
pub open spec fn same_windows(m: AppModel, n: AppModel) -> bool {
    &&& n.tabs.len() == m.tabs.len()
    &&& forall|i: int| 0 <= i < m.tabs.len() ==> same_panes(#[trigger] n.tabs[i], m.tabs[i])
    &&& n.next_pane == m.next_pane
    &&& n.active == m.active
}

proof fn lemma_same_windows(m: AppModel, n: AppModel)
    requires
        m.wf(),
        same_windows(m, n),
    ensures
        n.wf(),
{
    assert forall|i: int| 0 <= i < n.tabs.len() implies (#[trigger] n.tabs[i]).wf() by {
        assert(same_panes(n.tabs[i], m.tabs[i]));
        assert(m.tabs[i].wf());
    }
    assert forall|i: int, p: PaneId| 0 <= i < n.tabs.len() && #[trigger] holds(n, i, p) implies p
        < n.next_pane by {
        assert(same_panes(n.tabs[i], m.tabs[i]));
        assert(holds(m, i, p));
    }
    assert forall|i: int, j: int, p: PaneId|
        0 <= i < j < n.tabs.len() && #[trigger] holds(n, i, p) implies !#[trigger] holds(n, j, p) by {
        assert(same_panes(n.tabs[i], m.tabs[i]));
        assert(same_panes(n.tabs[j], m.tabs[j]));
        assert(holds(m, i, p));
        assert(!holds(m, j, p));
    }
}

proof fn lemma_fewer_profiles(m: AppModel, n: AppModel)
    requires
        open_once(m),
        n.tabs.len() == m.tabs.len(),
        forall|i: int| 0 <= i < m.tabs.len() ==> no_other_profile(#[trigger] n.tabs[i], m.tabs[i]),
    ensures
        open_once(n),
{
    assert forall|i: int, j: int|
        0 <= i < j < n.tabs.len() && (#[trigger] n.tabs[i]).profile is Some implies n.tabs[i].profile
        != (#[trigger] n.tabs[j]).profile by {
        assert(no_other_profile(n.tabs[i], m.tabs[i]));
        assert(no_other_profile(n.tabs[j], m.tabs[j]));
        assert(m.tabs[i].profile is Some);
        assert(m.tabs[i].profile != m.tabs[j].profile);
    }
}

proof fn lemma_synced_tab(m: AppModel, seen: Seq<Seq<(PaneId, Seq<char>)>>, n: nat, i: int)
    requires
        0 <= i < n <= m.tabs.len(),
    ensures
        synced(m.config, m.tabs, seen, n).tabs.len() == n,
        same_panes(synced(m.config, m.tabs, seen, n).tabs[i], m.tabs[i]),
        no_other_profile(synced(m.config, m.tabs, seen, n).tabs[i], m.tabs[i]),
    decreases n,
{
    lemma_synced_count(m, seen, (n - 1) as nat);
    if i < n - 1 {
        lemma_synced_tab(m, seen, (n - 1) as nat, i);
    }
}

proof fn lemma_synced_count(m: AppModel, seen: Seq<Seq<(PaneId, Seq<char>)>>, n: nat)
    ensures
        synced(m.config, m.tabs, seen, n).tabs.len() == n,
    decreases n,
{
    if n > 0 {
        lemma_synced_count(m, seen, (n - 1) as nat);
    }
}

/// Saving what is open keeps the window together.
pub proof fn law_sync_keeps(m: AppModel, seen: Seq<Seq<(PaneId, Seq<char>)>>)
    ensures
        m.wf() ==> m.syncing(seen).wf(),
        open_once(m) ==> open_once(m.syncing(seen)),
{
    let n = m.syncing(seen);
    lemma_synced_count(m, seen, m.tabs.len());
    assert forall|i: int| 0 <= i < m.tabs.len() implies same_panes(#[trigger] n.tabs[i], m.tabs[i])
        && no_other_profile(n.tabs[i], m.tabs[i]) by {
        lemma_synced_tab(m, seen, m.tabs.len(), i);
    }
    if m.wf() {
        lemma_same_windows(m, n);
    }
    if open_once(m) {
        lemma_fewer_profiles(m, n);
    }
}

/// Switching to another config keeps the window together.
pub proof fn law_config_keeps(m: AppModel, config: ConfigModel)
    ensures
        m.wf() ==> m.configured(config).wf(),
        open_once(m) ==> open_once(m.configured(config)),
{
    let n = m.configured(config);
    assert forall|i: int| 0 <= i < m.tabs.len() implies same_panes(#[trigger] n.tabs[i], m.tabs[i])
        && no_other_profile(n.tabs[i], m.tabs[i]) by {
        assert(n.tabs[i] == following(m.tabs[i], config.profiles));
    }
    if m.wf() {
        lemma_same_windows(m, n);
    }
    if open_once(m) {
        lemma_fewer_profiles(m, n);
    }
}

/// Deleting, renaming and coloring a profile or a host keeps the window together.
pub proof fn law_items_keep(m: AppModel, id: u128, name: Seq<char>, color: Option<Color>)
    ensures
        m.wf() ==> m.without_profile(id).wf() && m.renaming_profile(id, name).wf()
            && m.coloring_item(id, color).wf() && m.without_host(id).wf(),
        open_once(m) ==> open_once(m.without_profile(id)) && open_once(
            m.renaming_profile(id, name),
        ) && open_once(m.coloring_item(id, color)) && open_once(m.without_host(id)),
{
    let a = m.without_profile(id);
    let b = m.renaming_profile(id, name);
    let c = m.coloring_item(id, color);
    let d = m.without_host(id);
    assert forall|i: int| 0 <= i < m.tabs.len() implies same_panes(#[trigger] a.tabs[i], m.tabs[i])
        && no_other_profile(a.tabs[i], m.tabs[i]) by {
        assert(a.tabs[i] == tab_without(m.tabs[i], id));
    }
    assert forall|i: int| 0 <= i < m.tabs.len() implies same_panes(#[trigger] b.tabs[i], m.tabs[i])
        && no_other_profile(b.tabs[i], m.tabs[i]) by {
        assert(b.tabs[i] == tab_named(m.tabs[i], id, name));
    }
    assert forall|i: int| 0 <= i < m.tabs.len() implies same_panes(#[trigger] c.tabs[i], m.tabs[i])
        && no_other_profile(c.tabs[i], m.tabs[i]) by {
        let half = m.coloring_profile(id, color).tabs[i];
        assert(half == tab_colored(m.tabs[i], id, color));
        assert(c.tabs[i] == host_tab_colored(half, id, color));
    }
    assert forall|i: int| 0 <= i < m.tabs.len() implies same_panes(#[trigger] d.tabs[i], m.tabs[i])
        && no_other_profile(d.tabs[i], m.tabs[i]) by {
        assert(d.tabs[i] == tab_disowned(m.tabs[i], id));
    }
    if m.wf() {
        lemma_same_windows(m, a);
        lemma_same_windows(m, b);
        lemma_same_windows(m, c);
        lemma_same_windows(m, d);
    }
    if open_once(m) {
        lemma_fewer_profiles(m, a);
        lemma_fewer_profiles(m, b);
        lemma_fewer_profiles(m, c);
        lemma_fewer_profiles(m, d);
    }
}

/// Naming a tab keeps the window together; the profile that a plain tab becomes has
/// a new id.
pub proof fn law_naming_keeps(
    m: AppModel,
    i: usize,
    text: Seq<char>,
    title: Option<Seq<char>>,
    seen: Seq<(PaneId, Seq<char>)>,
    id: u128,
)
    requires
        i < m.tabs.len(),
        forall|k: int| 0 <= k < m.tabs.len() ==> (#[trigger] m.tabs[k]).profile != Some(id),
    ensures
        m.wf() ==> m.naming_tab(i, text, title, seen, id).wf(),
        open_once(m) ==> open_once(m.naming_tab(i, text, title, seen, id)),
{
    let n = m.naming_tab(i, text, title, seen, id);
    assert forall|k: int| 0 <= k < m.tabs.len() implies same_panes(
        #[trigger] n.tabs[k],
        m.tabs[k],
    ) by {
        if k != i {
            assert(n.tabs[k] == m.tabs[k]);
        }
    }
    if m.wf() {
        lemma_same_windows(m, n);
    }
    if open_once(m) {
        assert forall|a: int, b: int|
            0 <= a < b < n.tabs.len() && (
            #[trigger] n.tabs[a]).profile is Some implies n.tabs[a].profile != (
        #[trigger] n.tabs[b]).profile by {
            if a != i {
                assert(n.tabs[a] == m.tabs[a]);
            }
            if b != i {
                assert(n.tabs[b] == m.tabs[b]);
            }
            assert(m.tabs[a].profile is Some ==> m.tabs[a].profile != m.tabs[b].profile);
        }
    }
}

/// A pane that ends keeps the window together.
pub proof fn law_exit_keeps(
    m: AppModel,
    pane: PaneId,
    index: usize,
    seen: Seq<(PaneId, Seq<char>)>,
)
    requires
        m.wf(),
        index < m.tabs.len(),
        m.tabs[index as int].layout.has(pane),
    ensures
        m.exiting(pane, index, seen).wf(),
{
    let k = index as int;
    let n = m.exiting(pane, index, seen);
    if m.tabs[k].ssh is Some {
        let t = n.tabs[k];
        assert(t.wf()) by {
            assert forall|id: PaneId| #[trigger] t.dead.contains(id) implies t.layout.has(id) by {
                if id != pane {
                    assert(m.tabs[k].dead.contains(id));
                }
            }
        }
        law_updating(m, k, t, m.next_pane);
        lemma_same_tabs(AppModel { tabs: m.tabs.update(k, t), next_pane: m.next_pane, ..m }, n);
    } else if n.tabs.len() > 0 {
        law_close_pane(m, index, pane, seen, 0);
    } else {
        assert(m.tabs[k].layout.order().len() <= 1);
        law_close_tab(m, index, seen);
    }
}

/// Starting the terminal of a pane keeps the window together.
pub proof fn law_start_keeps(m: AppModel, index: usize, pane: PaneId)
    requires
        m.wf(),
        index < m.tabs.len(),
        m.tabs[index as int].layout.has(pane),
    ensures
        (AppModel {
            tabs: m.tabs.update(
                index as int,
                TabModel {
                    running: m.tabs[index as int].running.insert(pane),
                    ..m.tabs[index as int]
                },
            ),
            ..m
        }).wf(),
{
    let k = index as int;
    let t = TabModel { running: m.tabs[k].running.insert(pane), ..m.tabs[k] };
    assert(t.wf()) by {
        assert forall|id: PaneId| #[trigger] t.running.contains(id) implies t.layout.has(id) by {
            if id != pane {
                assert(m.tabs[k].running.contains(id));
            }
        }
    }
    law_updating(m, k, t, m.next_pane);
}

/// Dragging a tab keeps the window together.
pub proof fn law_drag_keeps(m: AppModel, from: usize, to: usize)
    requires
        from < m.tabs.len(),
        to < m.tabs.len(),
    ensures
        m.wf() ==> m.moving_tab(from, to).wf(),
        open_once(m) ==> open_once(m.moving_tab(from, to)),
{
    let n = m.moving_tab(from, to);
    assert forall|i: int| 0 <= i < n.tabs.len() implies #[trigger] n.tabs[i] == m.tabs[came_from(
        i,
        from as int,
        to as int,
    )] by {}
    if m.wf() {
        assert forall|i: int| 0 <= i < n.tabs.len() implies (#[trigger] n.tabs[i]).wf() by {
            assert(m.tabs[came_from(i, from as int, to as int)].wf());
        }
        assert forall|i: int, p: PaneId|
            0 <= i < n.tabs.len() && #[trigger] holds(n, i, p) implies p < n.next_pane by {
            assert(holds(m, came_from(i, from as int, to as int), p));
        }
        assert forall|i: int, j: int, p: PaneId|
            0 <= i < j < n.tabs.len() && #[trigger] holds(n, i, p) implies !#[trigger] holds(
            n,
            j,
            p,
        ) by {
            let a = came_from(i, from as int, to as int);
            let b = came_from(j, from as int, to as int);
            assert(holds(m, a, p));
            if holds(n, j, p) {
                assert(holds(m, b, p));
                if a < b {
                    assert(!holds(m, b, p));
                } else {
                    assert(!holds(m, a, p));
                }
            }
        }
    }
    if open_once(m) {
        assert forall|i: int, j: int|
            0 <= i < j < n.tabs.len() && (
            #[trigger] n.tabs[i]).profile is Some implies n.tabs[i].profile != (
        #[trigger] n.tabs[j]).profile by {
            let a = came_from(i, from as int, to as int);
            let b = came_from(j, from as int, to as int);
            if n.tabs[j].profile is Some {
                if a < b {
                    assert(m.tabs[a].profile != m.tabs[b].profile);
                } else {
                    assert(m.tabs[b].profile != m.tabs[a].profile);
                }
            }
        }
    }
}

/// Where a tab was before one was moved.
pub open spec fn came_from(i: int, from: int, to: int) -> int {
    if i == to {
        from
    } else {
        let k = if i < to {
            i
        } else {
            i - 1
        };
        if k < from {
            k
        } else {
            k + 1
        }
    }
}

/// Closing a tab leaves every profile open in one tab at most.
pub proof fn law_close_keeps_once(m: AppModel, index: usize, seen: Seq<(PaneId, Seq<char>)>)
    requires
        open_once(m),
    ensures
        open_once(m.closing_tab(index, seen)),
{
    if index < m.tabs.len() {
        let n = m.closing_tab(index, seen);
        let k = index as int;
        assert forall|i: int, j: int|
            0 <= i < j < n.tabs.len() && (
            #[trigger] n.tabs[i]).profile is Some implies n.tabs[i].profile != (
        #[trigger] n.tabs[j]).profile by {
            let a = if i < k {
                i
            } else {
                i + 1
            };
            let b = if j < k {
                j
            } else {
                j + 1
            };
            assert(n.tabs[i] == m.tabs[a]);
            assert(n.tabs[j] == m.tabs[b]);
        }
    }
}

} // verus!
