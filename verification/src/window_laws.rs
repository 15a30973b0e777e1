//! What the tabs of the window do when they are opened, chosen, split and closed.

use crate::app::{
    lemma_profile_tab_is, lemma_ssh_tab, not_of, remembered, with_state, AppModel, CloseRequest,
};
use crate::arrange::{host_ids, profile_ids};
use crate::config::{LayoutModel, ProfileModel, SessionTabModel, TabStateModel};
use crate::find::{has_host, has_profile, host_place, profile_place};
use crate::ids::lemma_place;
use crate::pane::{neighbor_id, Direction, Node, PaneId};
use crate::restore::{built, in_range, law_build_has, law_state_round_trip};
use crate::tab::{layout_of, lemma_pane_place, less_pane, noted, TabModel};
use vstd::prelude::*;

verus! {

/// A list of profiles holds an id if one of them has it, and finds the first that has.
pub proof fn law_profile_found(s: Seq<ProfileModel>, id: u128, i: int)
    ensures
        0 <= i < s.len() && s[i].id == id ==> has_profile(s, id) && profile_place(s, id) <= i,
        has_profile(s, id) ==> 0 <= profile_place(s, id) < s.len() && s[profile_place(s, id)].id
            == id,
{
    lemma_place(profile_ids(s), id);
    if 0 <= i < s.len() && s[i].id == id {
        assert(profile_ids(s)[i] == id);
    }
}

/// A list of hosts holds an id if one of them has it, and finds the first that has.
pub proof fn law_host_found(s: Seq<crate::config::SshHostModel>, id: u128, i: int)
    ensures
        0 <= i < s.len() && s[i].id == id ==> has_host(s, id) && host_place(s, id) <= i,
        has_host(s, id) ==> 0 <= host_place(s, id) < s.len() && s[host_place(s, id)].id == id,
{
    lemma_place(host_ids(s), id);
    if 0 <= i < s.len() && s[i].id == id {
        assert(host_ids(s)[i] == id);
    }
}

/// The chosen tab is shown; one that does not exist is not.
pub proof fn law_selected(m: AppModel, index: usize)
    ensures
        index < m.tabs.len() ==> m.selecting(index).active == index,
        index >= m.tabs.len() ==> m.selecting(index) == m,
        m.selecting(index).tabs == m.tabs,
{
}

/// An opened tab comes last and is shown; it looks as it was saved, its panes take ids that
/// were not used before, and their shells start when it is shown.
pub proof fn law_opened(m: AppModel, state: TabStateModel, profile: Option<u128>)
    requires
        m.tabs.len() < usize::MAX,
        m.next_pane + state.layout.count() <= u64::MAX,
    ensures
        ({
            let r = m.opening(state, profile);
            let tab = r.tabs.last();
            &&& r.tabs.len() == m.tabs.len() + 1
            &&& r.tabs.drop_last() == m.tabs
            &&& r.active == m.tabs.len()
            &&& r.focus_terminal
            &&& r.next_pane == m.next_pane + state.layout.count()
            &&& tab.name == state.name && tab.color == state.color
            &&& tab.snapshot().layout == in_range(state.layout)
            &&& state.focused < state.layout.count() ==> tab.snapshot().focused == state.focused
            &&& forall|p: PaneId|
                tab.layout.has(p) == (m.next_pane <= p < m.next_pane + state.layout.count())
            &&& forall|p: PaneId| tab.layout.has(p) ==> #[trigger] tab.pending.contains(p)
            &&& tab.profile == match profile {
                Some(id) => if has_profile(m.config.profiles, id) {
                    Some(id)
                } else {
                    None
                },
                None => None,
            }
            &&& tab.ssh is None
            &&& r.config == m.config && r.closed == m.closed && r.window == m.window
        }),
{
    let r = m.opening(state, profile);
    let tab = r.tabs.last();
    let p0 = m.existing(profile);
    law_state_round_trip(state, m.next_pane as int, p0);
    assert(r.tabs.drop_last() =~= m.tabs);
    assert forall|p: PaneId|
        tab.layout.has(p) == (m.next_pane <= p < m.next_pane + state.layout.count()) by {
        law_build_has(state.layout, m.next_pane as int, p);
    }
    assert forall|p: PaneId| tab.layout.has(p) implies #[trigger] tab.pending.contains(p) by {
        crate::pane::law_order_holds(tab.layout, p);
    }
}

/// A saved layout comes back as it was split, with its ratio kept in bounds, and its first
/// half first.
pub proof fn law_built_as_saved(l: LayoutModel, next: int)
    ensures
        l matches LayoutModel::Split { axis, ratio, a, b } ==> (built(l, next) matches Node::Split {
            axis: axis2,
            ratio: ratio2,
            a: a2,
            b: b2,
        } && axis2 == axis && (0x3dcc_cccd <= ratio.bits <= 0x3f66_6666 ==> ratio2 == ratio) && *a2
            == built(*a, next) && *b2 == built(*b, next + a.count())),
        l is Pane ==> built(l, next) == Node::Leaf(next as u64),
{
}

/// A layout is saved as it is split, each pane with its directory and its history.
pub proof fn law_saved_as_laid_out(
    n: Node,
    cwds: Map<PaneId, Seq<char>>,
    histories: Map<PaneId, u128>,
)
    ensures
        n matches Node::Split { axis, ratio, a, b } ==> (layout_of(
            n,
            cwds,
            histories,
        ) matches LayoutModel::Split { axis: axis2, ratio: ratio2, a: a2, b: b2 } && axis2 == axis
            && ratio2 == ratio && *a2 == layout_of(*a, cwds, histories) && *b2 == layout_of(
            *b,
            cwds,
            histories,
        )),
        n matches Node::Leaf(id) ==> (layout_of(n, cwds, histories) matches LayoutModel::Pane {
            cwd,
            history,
        } && (cwd is Some) == cwds.dom().contains(id) && (cwd is Some ==> cwd->0 == cwds[id]) && (
        history is Some) == histories.dom().contains(id) && (history is Some ==> history->0
            == histories[id])),
{
}

/// The directory that was seen last in a pane is the one that is kept; a pane that was not
/// seen keeps the one it had.
pub proof fn law_last_directory_kept(
    cwds: Map<PaneId, Seq<char>>,
    seen: Seq<(PaneId, Seq<char>)>,
    id: PaneId,
)
    ensures
        (forall|i: int| 0 <= i < seen.len() ==> (#[trigger] seen[i]).0 != id) ==> (noted(
            cwds,
            seen,
        ).dom().contains(id) == cwds.dom().contains(id) && (cwds.dom().contains(id) ==> noted(
            cwds,
            seen,
        )[id] == cwds[id])),
        forall|k: int|
            0 <= k < seen.len() && (#[trigger] seen[k]).0 == id && (forall|i: int|
                k < i < seen.len() ==> (#[trigger] seen[i]).0 != id) ==> noted(
                cwds,
                seen,
            ).dom().contains(id) && noted(cwds, seen)[id] == seen[k].1,
    decreases seen.len(),
{
    if seen.len() > 0 {
        let rest = seen.drop_last();
        law_last_directory_kept(cwds, rest, id);
        if seen.last().0 != id {
            assert forall|k: int|
                0 <= k < seen.len() && (#[trigger] seen[k]).0 == id && (forall|i: int|
                    k < i < seen.len() ==> (#[trigger] seen[i]).0 != id) implies noted(
                cwds,
                seen,
            ).dom().contains(id) && noted(cwds, seen)[id] == seen[k].1 by {
                assert(rest[k] == seen[k]);
                assert forall|i: int| k < i < rest.len() implies (#[trigger] rest[i]).0 != id by {
                    assert(rest[i] == seen[i]);
                }
            }
            if forall|i: int| 0 <= i < seen.len() ==> (#[trigger] seen[i]).0 != id {
                assert forall|i: int| 0 <= i < rest.len() implies (#[trigger] rest[i]).0
                    != id by {
                    assert(rest[i] == seen[i]);
                }
            }
        } else {
            assert(seen[seen.len() - 1].0 == id);
        }
    }
}

/// What is saved of a tab is its name, its color and the pane that has the focus.
pub proof fn law_saved_tab(t: TabModel, i: int)
    requires
        t.layout.order().no_duplicates(),
        0 <= i < t.layout.order().len(),
        t.layout.order()[i] == t.focused,
        t.layout.order().len() <= usize::MAX,
    ensures
        t.snapshot().name == t.name,
        t.snapshot().color == t.color,
        t.snapshot().focused == i,
{
    lemma_pane_place(t.layout.order(), t.focused, i);
}

/// A tab goes by the name it was given, else by the title of its program.
pub proof fn law_title(t: TabModel, title: Seq<char>)
    ensures
        t.name matches Some(name) ==> t.called(Some(title)) == name && t.called(None) == name,
        t.name is None ==> t.called(Some(title)) == title && t.called(None) == "Terminal"@,
{
}

/// A new tab holds one pane, whose shell runs and writes the given history; it comes last
/// and is shown.
pub proof fn law_new_tab_opened(m: AppModel, history: u128)
    requires
        m.tabs.len() < usize::MAX,
        m.next_pane < u64::MAX,
    ensures
        ({
            let r = m.with_new_tab(history);
            let tab = r.tabs.last();
            &&& r.tabs.len() == m.tabs.len() + 1
            &&& r.tabs.drop_last() == m.tabs
            &&& r.active == m.tabs.len()
            &&& r.focus_terminal
            &&& tab.layout == Node::Leaf(m.next_pane)
            &&& tab.focused == m.next_pane
            &&& tab.running.contains(m.next_pane)
            &&& tab.pending.len() == 0
            &&& tab.histories.dom().contains(m.next_pane) && tab.histories[m.next_pane] == history
            &&& tab.name is None && tab.profile is None && tab.ssh is None
            &&& r.next_pane > m.next_pane
            &&& r.config == m.config && r.closed == m.closed
        }),
{
    assert(m.with_new_tab(history).tabs.drop_last() =~= m.tabs);
}

/// Opening a profile shows the tab that has it already; else a tab opens as the profile
/// was saved. A profile that does not exist opens nothing.
pub proof fn law_profile_opened(m: AppModel, id: u128, i: int, k: int)
    requires
        m.tabs.len() < usize::MAX,
        0 <= k < m.config.profiles.len(),
        m.config.profiles[k].id == id,
        forall|j: int| 0 <= j < k ==> (#[trigger] m.config.profiles[j]).id != id,
        m.next_pane + m.config.profiles[k].tab.layout.count() <= u64::MAX,
    ensures
        0 <= i < m.tabs.len() && m.tabs[i].profile == Some(id) ==> m.opening_profile(id).tabs
            == m.tabs && m.tabs[m.opening_profile(id).active as int].profile == Some(id),
        (forall|j: int| 0 <= j < m.tabs.len() ==> (#[trigger] m.tabs[j]).profile != Some(id)) ==> {
            let r = m.opening_profile(id);
            &&& r.tabs.len() == m.tabs.len() + 1
            &&& r.active == m.tabs.len()
            &&& r.tabs.last().profile == Some(id)
            &&& r.tabs.last().name == m.config.profiles[k].tab.name
            &&& r.tabs.last().color == m.config.profiles[k].tab.color
            &&& r.tabs.last().snapshot().layout == in_range(m.config.profiles[k].tab.layout)
        },
        forall|other: u128|
            !has_profile(m.config.profiles, other) && (forall|j: int|
                0 <= j < m.tabs.len() ==> (#[trigger] m.tabs[j]).profile != Some(other))
                ==> #[trigger] m.opening_profile(other) == m,
{
    lemma_profile_tab_is(m.tabs, id);
    lemma_place(profile_ids(m.config.profiles), id);
    assert(profile_ids(m.config.profiles)[k] == id);
    let p = profile_place(m.config.profiles, id);
    assert(p == k) by {
        assert(profile_ids(m.config.profiles)[p] == id);
        if k < p {
            assert(profile_ids(m.config.profiles)[k] != id);
        }
        if p < k {
            assert(m.config.profiles[p].id != id);
        }
    }
    law_opened(m, m.config.profiles[k].tab, Some(id));
    assert forall|other: u128|
        !has_profile(m.config.profiles, other) && (forall|j: int|
            0 <= j < m.tabs.len() ==> (#[trigger] m.tabs[j]).profile != Some(other))
        implies #[trigger] m.opening_profile(other) == m by {
        lemma_profile_tab_is(m.tabs, other);
        lemma_place(profile_ids(m.config.profiles), other);
    }
}

/// Opening a host shows the tab that is connected to it already; else a tab opens with its
/// name and its color, in which the connection starts when it is shown.
pub proof fn law_host_opened(m: AppModel, id: u128, i: int, k: int)
    requires
        m.tabs.len() < usize::MAX,
        m.next_pane < u64::MAX,
        0 <= k < m.config.ssh.len(),
        m.config.ssh[k].id == id,
        forall|j: int| 0 <= j < k ==> (#[trigger] m.config.ssh[j]).id != id,
    ensures
        0 <= i < m.tabs.len() && m.tabs[i].ssh == Some(id) && (forall|j: int|
            0 <= j < i ==> (#[trigger] m.tabs[j]).ssh != Some(id)) ==> m.opening_ssh(id).tabs
            == m.tabs && m.opening_ssh(id).active == i,
        (forall|j: int| 0 <= j < m.tabs.len() ==> (#[trigger] m.tabs[j]).ssh != Some(id)) ==> {
            let r = m.opening_ssh(id);
            &&& r.tabs.len() == m.tabs.len() + 1
            &&& r.tabs.drop_last() == m.tabs
            &&& r.active == m.tabs.len()
            &&& r.tabs.last().ssh == Some(id)
            &&& r.tabs.last().name == Some(m.config.ssh[k].name)
            &&& r.tabs.last().color == m.config.ssh[k].color
            &&& r.tabs.last().profile is None
            &&& r.tabs.last().layout == Node::Leaf(m.next_pane)
            &&& r.tabs.last().pending == seq![m.next_pane]
            &&& r.next_pane == m.next_pane + 1
        },
{
    lemma_place(host_ids(m.config.ssh), id);
    assert(host_ids(m.config.ssh)[k] == id);
    let h = host_place(m.config.ssh, id);
    assert(h == k) by {
        assert(host_ids(m.config.ssh)[h] == id);
        if k < h {
            assert(host_ids(m.config.ssh)[k] != id);
        }
        if h < k {
            assert(m.config.ssh[h].id != id);
        }
    }
    if 0 <= i < m.tabs.len() && m.tabs[i].ssh == Some(id) && (forall|j: int|
        0 <= j < i ==> (#[trigger] m.tabs[j]).ssh != Some(id)) {
        lemma_ssh_tab(m.tabs, id, i);
    }
    if forall|j: int| 0 <= j < m.tabs.len() ==> (#[trigger] m.tabs[j]).ssh != Some(id) {
        lemma_ssh_tab(m.tabs, id, m.tabs.len() as int);
        assert(m.opening_ssh(id).tabs.drop_last() =~= m.tabs);
    }
}

/// A closed tab that is opened again leaves the list of closed ones, and opens as it was
/// when it was closed, or as its profile is now.
pub proof fn law_reopened(m: AppModel, index: usize)
    requires
        m.tabs.len() < usize::MAX,
    ensures
        index >= m.closed.len() ==> m.reopening(index) == m,
        index < m.closed.len() ==> {
            let r = m.reopening(index);
            let tab = m.closed[index as int];
            let rest = AppModel { closed: r.closed, ..m };
            &&& r.closed == m.closed.remove(index as int)
            &&& (tab.profile is None || !has_profile(m.config.profiles, tab.profile->0)) ==> r
                == rest.opening(tab.tab, None)
            &&& (tab.profile is Some && has_profile(m.config.profiles, tab.profile->0)) ==> r
                == rest.opening_profile(tab.profile->0)
        },
{
    if index < m.closed.len() {
        let rest = AppModel { closed: m.closed.remove(index as int), ..m };
        if rest.existing(m.closed[index as int].profile) is Some {
            let id = m.closed[index as int].profile->0;
            assert(rest.opening_profile(id).closed == rest.closed);
        }
    }
}

/// A split adds one pane, beside the one that had the focus, on the side that was asked
/// for; it gets the focus and the given history, and the other tabs stay as they are.
pub proof fn law_split_added(m: AppModel, index: usize, side: Direction, history: u128, j: int)
    requires
        m.wf(),
        index < m.tabs.len(),
        m.next_pane < u64::MAX,
    ensures
        ({
            let r = m.splitting(index, side, history);
            let (old_tab, tab) = (m.tabs[index as int], r.tabs[index as int]);
            &&& tab.layout == old_tab.layout.with_split(old_tab.focused, m.next_pane, side)
            &&& tab.focused == m.next_pane
            &&& tab.running.contains(m.next_pane)
            &&& tab.histories.dom().contains(m.next_pane) && tab.histories[m.next_pane] == history
            &&& tab.name == old_tab.name && tab.color == old_tab.color
            &&& tab.profile == old_tab.profile && tab.ssh == old_tab.ssh
            &&& r.next_pane == m.next_pane + 1
            &&& r.active == m.active
            &&& r.tabs.len() == m.tabs.len()
            &&& 0 <= j < m.tabs.len() && j != index ==> r.tabs[j] == m.tabs[j]
        }),
{
    assert(m.tabs[index as int].wf());
}

/// Closing a tab leaves the others in their order. The tab that is shown stays shown; where
/// it is the one that closes, the next one is, or the last.
pub proof fn law_tab_closed(m: AppModel, index: usize, seen: Seq<(PaneId, Seq<char>)>, j: int)
    requires
        m.wf(),
        index < m.tabs.len(),
    ensures
        ({
            let r = m.closing_tab(index, seen);
            &&& r.tabs.len() == m.tabs.len() - 1
            &&& 0 <= j < index ==> r.tabs[j] == m.tabs[j]
            &&& index < j < m.tabs.len() ==> r.tabs[j - 1] == m.tabs[j]
            &&& m.active != index ==> r.tabs[r.active as int] == m.tabs[m.active as int]
            &&& m.active == index && index + 1 < m.tabs.len() ==> r.tabs[r.active as int]
                == m.tabs[index + 1]
            &&& m.active == index && index + 1 == m.tabs.len() && index > 0 ==> r.tabs[r.active as int]
                == m.tabs[index - 1]
        }),
{
}

/// What was open over a tab stays with that tab when another one closes, and closes with
/// its own.
pub proof fn law_open_over_its_tab(m: AppModel, index: usize, seen: Seq<(PaneId, Seq<char>)>)
    requires
        m.wf(),
        index < m.tabs.len(),
    ensures
        ({
            let r = m.closing_tab(index, seen);
            &&& m.rename is None ==> r.rename is None
            &&& m.rename matches Some(x) ==> (x.tab == index ==> r.rename is None) && (x.tab != index
                && x.tab < m.tabs.len() ==> (r.rename matches Some(y) && r.tabs[y.tab as int]
                == m.tabs[x.tab as int] && y.text == x.text))
            &&& m.history_search matches Some(x) ==> (x.tab == index ==> r.history_search is None)
                && (x.tab != index && x.tab < m.tabs.len() ==> (r.history_search matches Some(y)
                && r.tabs[y.tab as int] == m.tabs[x.tab as int] && y.pane == x.pane))
            &&& m.commands_menu matches Some(x) ==> (x.tab == index ==> r.commands_menu is None) && (
            x.tab != index && x.tab < m.tabs.len() ==> (r.commands_menu matches Some(y)
                && r.tabs[y.tab as int] == m.tabs[x.tab as int] && y.pane == x.pane))
        }),
{
}

/// A close that waits for its confirmation stays with its tab.
pub proof fn law_confirmation_of_its_tab(
    m: AppModel,
    index: usize,
    seen: Seq<(PaneId, Seq<char>)>,
)
    requires
        m.wf(),
        index < m.tabs.len(),
        m.confirm_close is Some,
    ensures
        match m.confirm_close->0.request {
            CloseRequest::Tab(i) => {
                &&& i == index ==> m.closing_tab(index, seen).confirm_close is None
                &&& i != index && i < m.tabs.len() ==> (m.closing_tab(
                    index,
                    seen,
                ).confirm_close matches Some(c) && (c.request matches CloseRequest::Tab(k)
                    && m.closing_tab(index, seen).tabs[k as int] == m.tabs[i as int]))
            },
            CloseRequest::Pane(i, p) => {
                &&& i == index ==> m.closing_tab(index, seen).confirm_close is None
                &&& i != index && i < m.tabs.len() ==> (m.closing_tab(
                    index,
                    seen,
                ).confirm_close matches Some(c) && (c.request matches CloseRequest::Pane(k, q)
                    && q == p && m.closing_tab(index, seen).tabs[k as int] == m.tabs[i as int]))
            },
            _ => m.closing_tab(index, seen).confirm_close == m.confirm_close,
        },
{
}

/// The last state of a closed tab is kept in its profile, and remembered as the last closed
/// one, once for each profile; a tab without a profile is not remembered.
pub proof fn law_closed_kept(
    m: AppModel,
    index: usize,
    seen: Seq<(PaneId, Seq<char>)>,
    id: u128,
    j: int,
)
    requires
        m.wf(),
        index < m.tabs.len(),
    ensures
        m.tabs[index as int].profile is None ==> m.closing_tab(index, seen).closed == m.closed
            && m.closing_tab(index, seen).config == m.config,
        m.tabs[index as int].profile == Some(id) ==> {
            let r = m.closing_tab(index, seen);
            let state = m.tabs[index as int].seeing(seen).snapshot();
            &&& r.closed.len() > 0
            &&& r.closed.last().profile == Some(id)
            &&& r.closed.last().tab == state
            &&& 0 <= j < r.closed.len() - 1 ==> r.closed[j].profile != Some(id)
                && m.closed.contains(r.closed[j])
            &&& has_profile(m.config.profiles, id) ==> r.config.profiles[profile_place(
                m.config.profiles,
                id,
            )].tab == state
            &&& r.config.profiles.len() == m.config.profiles.len()
        },
{
    let tab = m.tabs[index as int];
    if tab.profile == Some(id) {
        let state = tab.seeing(seen).snapshot();
        let p = not_of(tab.profile);
        let kept = m.closed.filter(p);
        lemma_place(profile_ids(m.config.profiles), id);
        broadcast use vstd::seq_lib::group_filter_ensures;

        let all = kept.push(SessionTabModel { profile: tab.profile, ssh: None, tab: state });
        let r = remembered(m.closed, tab.profile, state);
        if 0 <= j < r.len() - 1 {
            let k = if all.len() > crate::config::MAX_CLOSED {
                j + 1
            } else {
                j
            };
            assert(r[j] == all[k] && all[k] == kept[k]);
            assert(p(kept[k]));
            m.closed.lemma_filter_contains_rev(p, kept[k]);
        }
    }
}

/// A profile keeps its place, its id and its commands when its state is written back; the
/// others stay as they are.
pub proof fn law_state_written_back(
    profiles: Seq<ProfileModel>,
    id: Option<u128>,
    state: TabStateModel,
    i: int,
)
    requires
        0 <= i < profiles.len(),
    ensures
        with_state(profiles, id, state).len() == profiles.len(),
        with_state(profiles, id, state)[i].id == profiles[i].id,
        with_state(profiles, id, state)[i].commands == profiles[i].commands,
        with_state(profiles, id, state)[i].extra == profiles[i].extra,
        Some(profiles[i].id) != id ==> with_state(profiles, id, state)[i] == profiles[i],
        Some(profiles[i].id) == id && profile_place(profiles, id->0) == i ==> with_state(
            profiles,
            id,
            state,
        )[i].tab == state,
{
    match id {
        Some(id) => {
            lemma_place(profile_ids(profiles), id);
            let p = profile_place(profiles, id);
            if p < profiles.len() {
                assert(profile_ids(profiles)[p] == profiles[p].id);
            }
        },
        None => {},
    }
}

/// Closing a pane takes it out of its tab and leaves the others; the last one of a tab
/// closes the tab.
pub proof fn law_pane_closed(
    m: AppModel,
    index: usize,
    pane: PaneId,
    seen: Seq<(PaneId, Seq<char>)>,
    p: PaneId,
    j: int,
)
    requires
        m.wf(),
        index < m.tabs.len(),
        m.tabs[index as int].layout.has(pane),
    ensures
        m.tabs[index as int].layout is Leaf ==> m.closing_pane(index, pane, seen).tabs
            == m.tabs.remove(index as int),
        m.tabs[index as int].layout.order().len() > 1 ==> {
            let r = m.closing_pane(index, pane, seen);
            &&& r.tabs.len() == m.tabs.len()
            &&& r.active == m.active
            &&& !r.tabs[index as int].layout.has(pane)
            &&& p != pane ==> r.tabs[index as int].layout.has(p) == m.tabs[index as int].layout.has(p)
            &&& 0 <= j < m.tabs.len() && j != index ==> r.tabs[j] == m.tabs[j]
        },
{
    assert(m.tabs[index as int].wf());
    if m.tabs[index as int].layout.order().len() > 1 {
        crate::tab::law_remove_pane(m.tabs[index as int], pane);
    }
}

/// A pane that closes leaves the focus where it is, if it had not it. Else the focus goes to
/// the running pane that lies left of it, or above where none is left, or right, or below.
pub proof fn law_focus_inherited(t: TabModel, id: PaneId)
    requires
        t.wf(),
        t.layout.order().len() > 1,
    ensures
        t.focused != id ==> t.without_pane(id).focused == t.focused,
        t.focused == id ==> {
            let left = neighbor_id(t.rects, id, Direction::Left);
            let up = neighbor_id(t.rects, id, Direction::Up);
            let right = neighbor_id(t.rects, id, Direction::Right);
            let down = neighbor_id(t.rects, id, Direction::Down);
            let f = t.without_pane(id).focused;
            &&& left is Some && left->0 != id && t.running.contains(left->0) ==> f == left->0
            &&& left is None && up is Some && up->0 != id && t.running.contains(up->0) ==> f
                == up->0
            &&& left is None && up is None && right is Some && right->0 != id
                && t.running.contains(right->0) ==> f == right->0
            &&& left is None && up is None && right is None && down is Some && down->0 != id
                && t.running.contains(down->0) ==> f == down->0
        },
        !t.without_pane(id).running.contains(id),
        !t.without_pane(id).dead.contains(id),
        !t.without_pane(id).pending.contains(id),
{
    broadcast use vstd::seq_lib::group_filter_ensures;

    let f = crate::tab::other_pane(id);
    let kept = less_pane(t.pending, id);
    if kept.contains(id) {
        let i = choose|i: int| 0 <= i < kept.len() && kept[i] == id;
        assert(f(kept[i]));
    }
}

/// The focus moves to the neighbor in that direction, and nothing else changes.
pub proof fn law_focus_moves(m: AppModel, dir: Direction, j: int)
    requires
        m.active < m.tabs.len(),
    ensures
        ({
            let tab = m.tabs[m.active as int];
            let r = m.focusing(dir);
            &&& r.tabs.len() == m.tabs.len() && r.active == m.active
            &&& neighbor_id(tab.rects, tab.focused, dir) matches Some(id)
                ==> r.tabs[m.active as int].focused == id && r.focus_terminal
            &&& neighbor_id(tab.rects, tab.focused, dir) is None ==> r == m
            &&& r.tabs[m.active as int].layout == tab.layout
            &&& 0 <= j < m.tabs.len() && j != m.active ==> r.tabs[j] == m.tabs[j]
        }),
{
}

} // verus!
