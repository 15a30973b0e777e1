//! What is saved comes back: the tabs, the one that is shown, the window and what was closed.

use crate::app::AppModel;
use crate::app_laws::open_once;
use crate::arrange::profile_ids;
use crate::config::{
    Config, ConfigModel, LayoutModel, Profile, ProfileModel, Session, SessionModel, SessionTab,
    SessionTabModel, SshHostModel,
};
use crate::find::{has_host, has_profile};
use crate::model::Same;
use crate::pane::{PaneId, Real};
use crate::restore::in_range;
use crate::session::{caused, changed_since, named_by_host, of_profiles, synced, with_live_profile};
use crate::startup::{law_every_tab_resumed, lemma_restoring, pane_count, starting_state};
use crate::strings::Strings;
use crate::tab::TabModel;
use crate::text::{begins, ends};
use crate::window_laws::{law_host_found, law_profile_found};
use vstd::prelude::*;

verus! {

/// The tab that was shown is shown again. Where the saved number is beyond the tabs, the
/// last one is shown.
pub proof fn law_active_resumed(m: AppModel, session: SessionModel)
    requires
        m.tabs.len() + session.tabs.len() <= usize::MAX,
    ensures
        session.active < m.tabs.len() + session.tabs.len() ==> m.resuming(session).active
            == session.active,
        0 < m.tabs.len() + session.tabs.len() <= session.active ==> m.resuming(session).active + 1
            == m.tabs.len() + session.tabs.len(),
        m.resuming(session).tabs.len() == m.tabs.len() + session.tabs.len(),
{
    let start = AppModel {
        closed: session.closed.filter(of_profiles(m.config.profiles)),
        window: session.window,
        ..m
    };
    lemma_restoring(start, session.tabs, session.tabs.len());
}

/// The window is where it was, and the closed tabs of the profiles that exist are there to
/// be opened again. The settings and the profiles are not touched.
pub proof fn law_window_resumed(m: AppModel, session: SessionModel, c: SessionTabModel)
    ensures
        m.resuming(session).window == session.window,
        m.resuming(session).saved_session == session,
        m.resuming(session).config == m.config,
        m.resuming(session).closed.contains(c) <==> session.closed.contains(c) && c.profile is Some
            && has_profile(m.config.profiles, c.profile->0),
{
    let start = AppModel {
        closed: session.closed.filter(of_profiles(m.config.profiles)),
        window: session.window,
        ..m
    };
    lemma_restoring(start, session.tabs, session.tabs.len());
    lemma_kept(session.closed, of_profiles(m.config.profiles), c);
}

proof fn lemma_kept(s: Seq<SessionTabModel>, p: spec_fn(SessionTabModel) -> bool, c: SessionTabModel)
    ensures
        s.filter(p).contains(c) <==> s.contains(c) && p(c),
{
    broadcast use vstd::seq_lib::group_filter_ensures;

    if s.filter(p).contains(c) {
        s.lemma_filter_contains_rev(p, c);
        let i = choose|i: int| 0 <= i < s.filter(p).len() && s.filter(p)[i] == c;
        assert(p(s.filter(p)[i]));
    }
    if s.contains(c) && p(c) {
        let i = choose|i: int| 0 <= i < s.len() && s[i] == c;
        assert(p(s[i]));
    }
}

proof fn lemma_resumed_host(m: AppModel, tabs: Seq<SessionTabModel>, n: nat, i: int)
    requires
        0 <= i < n,
    ensures
        m.restoring_all(tabs, n).tabs[m.tabs.len() + i].ssh == match tabs[i].ssh {
            Some(id) => if has_host(m.config.ssh, id) {
                Some(id)
            } else {
                None
            },
            None => None,
        },
    decreases n,
{
    lemma_restoring(m, tabs, (n - 1) as nat);
    let r = m.restoring_all(tabs, (n - 1) as nat);
    if i < n - 1 {
        lemma_resumed_host(m, tabs, (n - 1) as nat, i);
        assert(m.restoring_all(tabs, n).tabs[m.tabs.len() + i] == r.tabs[m.tabs.len() + i]);
    }
}

/// A tab of a host is connected to that host again, as long as it is known; the others to
/// none.
pub proof fn law_host_resumed(m: AppModel, session: SessionModel, i: int)
    requires
        0 <= i < session.tabs.len(),
    ensures
        m.resuming(session).tabs[m.tabs.len() + i].ssh == match session.tabs[i].ssh {
            Some(id) => if has_host(m.config.ssh, id) {
                Some(id)
            } else {
                None
            },
            None => None,
        },
{
    let start = AppModel {
        closed: session.closed.filter(of_profiles(m.config.profiles)),
        window: session.window,
        ..m
    };
    lemma_resumed_host(start, session.tabs, session.tabs.len(), i);
}

/// A tab starts as its profile is, where it has one that exists, and as it was saved
/// otherwise.
pub proof fn law_starting_state(profiles: Seq<ProfileModel>, tab: SessionTabModel, k: int)
    ensures
        tab.profile is None ==> starting_state(profiles, tab) == tab.tab,
        tab.profile is Some && !has_profile(profiles, tab.profile->0) ==> starting_state(
            profiles,
            tab,
        ) == tab.tab,
        0 <= k < profiles.len() && tab.profile == Some(profiles[k].id) && (forall|j: int|
            0 <= j < k ==> (#[trigger] profiles[j]).id != profiles[k].id) ==> starting_state(
            profiles,
            tab,
        ) == profiles[k].tab,
{
    if 0 <= k < profiles.len() && tab.profile == Some(profiles[k].id) && (forall|j: int|
        0 <= j < k ==> (#[trigger] profiles[j]).id != profiles[k].id) {
        law_profile_found(profiles, profiles[k].id, k);
    }
}

proof fn lemma_synced_tab(
    c: ConfigModel,
    tabs: Seq<TabModel>,
    seen: Seq<Seq<(PaneId, Seq<char>)>>,
    n: nat,
    i: int,
)
    requires
        0 <= i < n,
    ensures
        synced(c, tabs, seen, n).session.len() == n,
        synced(c, tabs, seen, n).tabs.len() == n,
        ({
            let t = named_by_host(tabs[i], c.ssh).seeing(seen[i]);
            let live = with_live_profile(t, c.profiles);
            &&& synced(c, tabs, seen, n).tabs[i] == live
            &&& synced(c, tabs, seen, n).session[i] == SessionTabModel {
                profile: live.profile,
                ssh: t.ssh,
                tab: t.snapshot(),
            }
        }),
    decreases n,
{
    if n > 1 {
        lemma_synced_tab(
            c,
            tabs,
            seen,
            (n - 1) as nat,
            if i < n - 1 {
                i
            } else {
                0
            },
        );
    } else {
        reveal_with_fuel(synced, 2);
    }
}

/// What is saved are the tabs in their order, the one that is shown, the window and the
/// closed tabs. Of each tab its host is saved, its profile if that exists, and its name and
/// color, which for the tab of a host are those of the host.
pub proof fn law_session_saved_as_shown(
    m: AppModel,
    seen: Seq<Seq<(PaneId, Seq<char>)>>,
    i: int,
)
    requires
        0 <= i < m.tabs.len(),
    ensures
        ({
            let s = m.session(seen);
            let (t, k) = (m.tabs[i], s.tabs[i]);
            &&& s.tabs.len() == m.tabs.len()
            &&& s.active == m.active
            &&& s.window == m.window
            &&& s.closed == m.closed
            &&& k.ssh == t.ssh
            &&& t.profile is None ==> k.profile is None
            &&& t.profile matches Some(id) ==> k.profile == if has_profile(m.config.profiles, id) {
                Some(id)
            } else {
                None
            }
            &&& (t.ssh is None || !has_host(m.config.ssh, t.ssh->0)) ==> k.tab.name == t.name
                && k.tab.color == t.color
            &&& t.ssh matches Some(id) ==> forall|h: int|
                0 <= h < m.config.ssh.len() && (#[trigger] m.config.ssh[h]).id == id && (forall|
                    j: int,
                |
                    0 <= j < h ==> (#[trigger] m.config.ssh[j]).id != id) ==> k.tab.name == Some(
                    m.config.ssh[h].name,
                ) && k.tab.color == m.config.ssh[h].color
        }),
{
    lemma_synced_tab(m.config, m.tabs, seen, m.tabs.len(), i);
    if let Some(id) = m.tabs[i].ssh {
        assert forall|h: int|
            0 <= h < m.config.ssh.len() && (#[trigger] m.config.ssh[h]).id == id && (forall|j: int|
                0 <= j < h ==> (#[trigger] m.config.ssh[j]).id != id) implies m.session(
            seen,
        ).tabs[i].tab.name == Some(m.config.ssh[h].name) && m.session(seen).tabs[i].tab.color
            == m.config.ssh[h].color by {
            law_host_found(m.config.ssh, id, h);
        }
    }
}

/// A sync keeps the tabs in their order with their panes, and no settings, hosts or groups
/// change.
pub proof fn law_sync_keeps_tabs(m: AppModel, seen: Seq<Seq<(PaneId, Seq<char>)>>, i: int)
    requires
        0 <= i < m.tabs.len(),
    ensures
        ({
            let r = m.syncing(seen);
            &&& r.tabs.len() == m.tabs.len()
            &&& r.active == m.active
            &&& r.tabs[i].layout == m.tabs[i].layout
            &&& r.tabs[i].focused == m.tabs[i].focused
            &&& r.tabs[i].running == m.tabs[i].running
            &&& r.tabs[i].ssh == m.tabs[i].ssh
            &&& r.config.settings == m.config.settings
            &&& r.config.ssh == m.config.ssh
            &&& r.config.groups == m.config.groups
            &&& r.closed == m.closed
        }),
{
    lemma_synced_tab(m.config, m.tabs, seen, m.tabs.len(), i);
}

/// Saving and starting again gives the same tabs in the same order, with the same one
/// shown: each with its host and its profile, its name, its color and its panes as they
/// were.
pub proof fn law_restart(m: AppModel, n: AppModel, seen: Seq<Seq<(PaneId, Seq<char>)>>, i: int)
    requires
        open_once(m),
        0 <= i < m.tabs.len() <= usize::MAX,
        m.active < m.tabs.len(),
        n.tabs.len() == 0,
        n.config == m.syncing(seen).config,
        n.next_pane + pane_count(n.config.profiles, m.session(seen).tabs, m.tabs.len()) <= u64::MAX,
    ensures
        ({
            let r = n.resuming(m.session(seen));
            let saved = m.session(seen).tabs[i];
            &&& r.tabs.len() == m.tabs.len()
            &&& r.active == m.active
            &&& r.window == m.window
            &&& r.tabs[i].profile == saved.profile
            &&& m.tabs[i].ssh matches Some(id) ==> has_host(m.config.ssh, id) ==> r.tabs[i].ssh
                == Some(id)
            &&& m.tabs[i].ssh is None ==> r.tabs[i].ssh is None
            &&& r.tabs[i].snapshot().name == saved.tab.name
            &&& r.tabs[i].snapshot().color == saved.tab.color
            &&& r.tabs[i].snapshot().layout == in_range(saved.tab.layout)
        }),
{
    let session = m.session(seen);
    lemma_synced_tab(m.config, m.tabs, seen, m.tabs.len(), i);
    law_active_resumed(n, session);
    law_window_resumed(n, session, session.tabs[i]);
    law_every_tab_resumed(n, session, i);
    law_host_resumed(n, session, i);
    crate::session::lemma_synced_ids(m.config, m.tabs, seen, m.tabs.len());
    assert(profile_ids(n.config.profiles) == profile_ids(m.config.profiles));
    if let Some(id) = m.tabs[i].profile {
        if has_profile(m.config.profiles, id) {
            crate::session::law_sync_updates_profiles(m, seen, i, id);
        }
    }
}

/// A host gives its name and its color to its tabs.
pub proof fn law_named_by_host(t: TabModel, ssh: Seq<SshHostModel>, h: int)
    ensures
        t.ssh is None ==> named_by_host(t, ssh) == t,
        0 <= h < ssh.len() && t.ssh == Some(ssh[h].id) && (forall|j: int|
            0 <= j < h ==> (#[trigger] ssh[j]).id != ssh[h].id) ==> named_by_host(t, ssh).name
            == Some(ssh[h].name) && named_by_host(t, ssh).color == ssh[h].color && named_by_host(
            t,
            ssh,
        ).layout == t.layout,
{
    if 0 <= h < ssh.len() && t.ssh == Some(ssh[h].id) && (forall|j: int|
        0 <= j < h ==> (#[trigger] ssh[j]).id != ssh[h].id) {
        law_host_found(ssh, ssh[h].id, h);
    }
}

/// After the config changed, the tabs go by their profiles: with the name and the color of
/// the profile, or without a profile where it is no more. Nothing else about them changes.
pub proof fn law_tabs_follow_the_config(m: AppModel, config: ConfigModel, i: int, k: int)
    requires
        0 <= i < m.tabs.len(),
    ensures
        ({
            let r = m.configured(config);
            let (old_tab, tab) = (m.tabs[i], r.tabs[i]);
            &&& r.tabs.len() == m.tabs.len()
            &&& r.config == config
            &&& r.error is None
            &&& r.active == m.active
            &&& tab.layout == old_tab.layout && tab.focused == old_tab.focused && tab.ssh
                == old_tab.ssh && tab.running == old_tab.running
            &&& old_tab.profile is None ==> tab == old_tab
            &&& old_tab.profile matches Some(id) ==> (!has_profile(config.profiles, id)
                ==> tab.profile is None && tab.name == old_tab.name && tab.color == old_tab.color)
                && (0 <= k < config.profiles.len() && config.profiles[k].id == id && (forall|j: int|
                0 <= j < k ==> (#[trigger] config.profiles[j]).id != id) ==> tab.profile == Some(id)
                && tab.name == config.profiles[k].tab.name && tab.color
                == config.profiles[k].tab.color)
        }),
{
    if let Some(id) = m.tabs[i].profile {
        law_profile_found(config.profiles, id, k);
    }
}

/// The closed tabs of profiles that are no more are forgotten, and no others.
pub proof fn law_closed_follow_the_config(m: AppModel, config: ConfigModel, c: SessionTabModel)
    ensures
        m.configured(config).closed.contains(c) <==> m.closed.contains(c) && c.profile is Some
            && has_profile(config.profiles, c.profile->0),
{
    lemma_kept(m.closed, of_profiles(config.profiles), c);
}

/// A config that was read is in force and is what the file holds; the file may be written
/// again, unless another Ronnie runs on it.
pub proof fn law_config_reloaded(m: AppModel, config: ConfigModel)
    ensures
        m.reloaded(config).config == config,
        m.reloaded(config).saved_config == config,
        m.reloaded(config).config_writable == !m.read_only,
        m.reloaded(config).error is None,
{
}

/// A config that cannot be read is told and never overwritten; what was in force stays so.
pub proof fn law_config_unreadable(m: AppModel, error: Seq<char>, exists: bool, t: Strings)
    ensures
        !m.config_lost(error, t).config_writable,
        !m.config_lost(error, t).config_to_write(),
        m.config_lost(error, t).config == m.config,
        m.config_lost(error, t).error matches Some(e) && ends(e, error) && begins(
            e,
            t.config_not_loaded@,
        ),
        !m.loading(Err(error), exists, t).config_writable,
        !m.loading(Err(error), exists, t).config_to_write(),
        m.loading(Err(error), exists, t).config == m.config,
        m.loading(Err(error), exists, t).error matches Some(e) && ends(e, error) && begins(
            e,
            t.config_not_loaded@,
        ),
        forall|s: SessionModel|
            !(#[trigger] m.loading(Err(error), exists, t).session_to_write(s)),
{
    law_told(t.config_not_loaded@, error);
}

/// A message starts with what happened and ends with why.
pub proof fn law_told(message: Seq<char>, cause: Seq<char>)
    ensures
        begins(caused(message, cause), message),
        ends(caused(message, cause), cause),
        caused(message, cause).len() > message.len() + cause.len(),
{
    reveal_strlit(" : ");
    let r = caused(message, cause);
    assert(r.take(message.len() as int) =~= message);
    assert(r.skip(r.len() - cause.len()) =~= cause);
}

/// A config that was read is in force; it is to be written at once only where there was no
/// file.
pub proof fn law_config_loaded(m: AppModel, config: ConfigModel, t: Strings)
    ensures
        forall|exists: bool| (#[trigger] m.loading(Ok(config), exists, t)).config == config,
        m.loading(Ok(config), true, t).saved_config == config,
        m.loading(Ok(config), false, t).saved_config == m.saved_config,
        m.loading(Ok(config), true, t).config_writable == m.config_writable,
{
}

/// A session that cannot be read is told and not overwritten during this run.
pub proof fn law_session_unreadable(m: AppModel, error: Seq<char>, t: Strings, s: SessionModel)
    ensures
        !m.losing_session(error, t).session_to_write(s),
        m.losing_session(error, t).tabs == m.tabs,
        m.losing_session(error, t).error matches Some(e) && ends(e, error) && begins(
            e,
            t.session_not_loaded@,
        ),
{
    law_told(t.session_not_loaded@, error);
}

/// A second Ronnie on the same config says so and writes no session.
pub proof fn law_second_writes_no_session(m: AppModel, t: Strings, s: SessionModel)
    ensures
        !m.locking(true, t).session_to_write(s),
        m.locking(true, t).error == Some(t.already_running@),
        m.locking(false, t) == m,
{
}

/// What was written is not written again, and what differs from it is; a failure is told,
/// and leaves the session to be written.
pub proof fn law_session_written_once(m: AppModel, s: SessionModel, error: Seq<char>, t: Strings)
    requires
        !m.read_only,
        !m.session_frozen,
    ensures
        Session::equal(s, s) ==> !m.session_saved(s, None, t).session_to_write(s),
        !Session::equal(s, m.saved_session) ==> m.session_to_write(s),
        m.session_saved(s, Some(error), t).session_to_write(s) == m.session_to_write(s),
        m.session_saved(s, Some(error), t).error matches Some(e) && ends(e, error) && begins(
            e,
            t.session_save_failed@,
        ),
        m.session_saved(s, None, t).error == m.error,
{
    law_told(t.session_save_failed@, error);
}

/// What was written is not written again, and what differs from it is; after a failure,
/// which is told, the config waits for the file to change.
pub proof fn law_config_written_once(m: AppModel, error: Seq<char>, t: Strings)
    requires
        m.config_writable,
    ensures
        Config::equal(m.config, m.config) ==> !m.config_saved(None, t).config_to_write(),
        !Config::equal(m.config, m.saved_config) ==> m.config_to_write(),
        !m.config_saved(Some(error), t).config_to_write(),
        m.config_saved(Some(error), t).error matches Some(e) && ends(e, error) && begins(
            e,
            t.config_save_failed@,
        ),
        m.config_saved(None, t).config == m.config,
        m.config_saved(None, t).error == m.error,
{
    law_told(t.config_save_failed@, error);
}

/// Layouts that count as the same have as many panes, with the same directories.
pub proof fn law_same_layout(a: LayoutModel, b: LayoutModel)
    requires
        a.equals(b),
    ensures
        a.count() == b.count(),
        a.dirs() == b.dirs(),
        a matches LayoutModel::Split { axis, .. } ==> (b matches LayoutModel::Split {
            axis: axis2,
            ..
        } && axis == axis2),
        a matches LayoutModel::Pane { history, .. } ==> (b matches LayoutModel::Pane {
            history: history2,
            ..
        } && history == history2),
    decreases a,
{
    match (a, b) {
        (
            LayoutModel::Split { a: a1, b: b1, .. },
            LayoutModel::Split { a: a2, b: b2, .. },
        ) => {
            law_same_layout(*a1, *a2);
            law_same_layout(*b1, *b2);
        },
        _ => {},
    }
}

/// A session that counts as saved has the tabs, the tab that is shown and the closed tabs
/// of the one that was saved: a change of any of them is saved.
pub proof fn law_session_changes_seen(a: SessionModel, b: SessionModel, i: int)
    requires
        Session::equal(a, b),
    ensures
        a.tabs.len() == b.tabs.len(),
        a.active == b.active,
        a.closed.len() == b.closed.len(),
        (a.window is Some) == (b.window is Some),
        a.window is Some ==> a.window->0.maximized == b.window->0.maximized
            && a.window->0.fullscreen == b.window->0.fullscreen,
        0 <= i < a.tabs.len() ==> {
            let (x, y) = (a.tabs[i], b.tabs[i]);
            &&& x.profile == y.profile && x.ssh == y.ssh
            &&& x.tab.name == y.tab.name && x.tab.color == y.tab.color
            &&& x.tab.focused == y.tab.focused
            &&& x.tab.layout.dirs() == y.tab.layout.dirs()
        },
        0 <= i < a.closed.len() ==> a.closed[i].profile == b.closed[i].profile
            && a.closed[i].tab.name == b.closed[i].tab.name,
{
    if 0 <= i < a.tabs.len() {
        assert(SessionTab::equal(a.tabs[i], b.tabs[i]));
        law_same_layout(a.tabs[i].tab.layout, b.tabs[i].tab.layout);
    }
    if 0 <= i < a.closed.len() {
        assert(SessionTab::equal(a.closed[i], b.closed[i]));
    }
}

/// A config that counts as saved has the settings, the profiles, the hosts, the groups and
/// the commands of the one that was saved: a change of any of them is saved.
pub proof fn law_config_changes_seen(a: ConfigModel, b: ConfigModel, i: int)
    requires
        Config::equal(a, b),
    ensures
        a.settings == b.settings,
        a.ungrouped == b.ungrouped,
        a.commands == b.commands,
        a.profiles.len() == b.profiles.len(),
        a.groups.len() == b.groups.len(),
        a.ssh == b.ssh,
        a.extra == b.extra,
        0 <= i < a.profiles.len() ==> {
            let (x, y) = (a.profiles[i], b.profiles[i]);
            &&& x.id == y.id && x.commands == y.commands
            &&& x.tab.name == y.tab.name && x.tab.color == y.tab.color
            &&& x.tab.focused == y.tab.focused
            &&& x.tab.layout.dirs() == y.tab.layout.dirs()
        },
        0 <= i < a.groups.len() ==> a.groups[i] == b.groups[i],
{
    assert(a.ssh =~= b.ssh);
    assert(a.extra =~= b.extra) by {
        assert forall|j: int| 0 <= j < a.extra.len() implies a.extra[j] == b.extra[j] by {
            assert(crate::config::Field::equal(a.extra[j], b.extra[j]));
        }
    }
    if 0 <= i < a.profiles.len() {
        assert(Profile::equal(a.profiles[i], b.profiles[i]));
        law_same_layout(a.profiles[i].tab.layout, b.profiles[i].tab.layout);
    }
    if 0 <= i < a.groups.len() {
        assert(crate::config::Group::equal(a.groups[i], b.groups[i]));
        assert(a.groups[i].extra =~= b.groups[i].extra) by {
            assert forall|j: int| 0 <= j < a.groups[i].extra.len() implies a.groups[i].extra[j]
                == b.groups[i].extra[j] by {
                assert(crate::config::Field::equal(a.groups[i].extra[j], b.groups[i].extra[j]));
            }
        }
    }
}

/// A file counts as edited when it has a time other than the one that is known.
pub proof fn law_edit_seen(modified: u64, known: Option<u64>)
    ensures
        !changed_since(None, known),
        !changed_since(Some(modified), Some(modified)),
        known != Some(modified) ==> changed_since(Some(modified), known),
{
}

/// The place and the size of the window are remembered while it is neither maximized nor
/// fullscreen, and kept while it is; whether it is, is always remembered.
pub proof fn law_window_tracked(
    m: AppModel,
    outer: (Real, Real),
    inner: (Real, Real),
    maximized: bool,
    fullscreen: bool,
)
    ensures
        ({
            let r = m.tracking(Some(outer), Some(inner), maximized, fullscreen);
            &&& r.tabs == m.tabs && r.config == m.config
            &&& r.window matches Some(w) && w.maximized == maximized && w.fullscreen == fullscreen
                && (!maximized && !fullscreen ==> w.x == outer.0 && w.y == outer.1 && w.width
                == inner.0 && w.height == inner.1) && ((maximized || fullscreen) && m.window is Some
                ==> w.x == m.window->0.x && w.y == m.window->0.y && w.width == m.window->0.width
                && w.height == m.window->0.height)
        }),
        m.tracking(None, Some(inner), maximized, fullscreen) == m,
        m.tracking(Some(outer), None, maximized, fullscreen) == m,
{
}

} // verus!
