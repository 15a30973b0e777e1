//! What runs in the panes: where shells start, what is asked before they are stopped, and
//! what the keys and the popups over them do.

use crate::app::{AppModel, CloseRequest};
use crate::closing::{
    interrupted, interruptions, left_to_close, saved_passwords, PaneUseModel, TabUseModel,
};
use crate::config::SshHostModel;
use crate::files::FileManagerModel;
use crate::find::host_place;
use crate::keys::{
    app_title, card_accepted, card_put_off, card_text, connecting_text, digit_tab, dir_label,
    has_rect, is_update_due, last_looked, pane_key, paste_shown, paste_titled, ssh_labelled, titled,
    todo, typed_password, versioned, CardClick, PaneKey, Todo, Update,
};
use crate::pane::{Direction, PaneId};
use crate::running::{given, starts_of, with_folders, Start};
use crate::session_laws::law_told;
use crate::shortcut::{Platform, ShortcutAction};
use crate::strings::Strings;
use crate::tab::TabModel;
use crate::text::{begins, decimal, ends, has_text, lines, opt_view, substituted};
use crate::text_laws::law_substituted;
use crate::window_laws::law_host_found;
use vstd::prelude::*;

verus! {

/// Every shell starts in its pane, in the directory that was last known there.
pub proof fn law_starts_where_it_was(
    starts: Seq<Start>,
    panes: Seq<PaneId>,
    cwds: Map<PaneId, Seq<char>>,
    i: int,
)
    requires
        starts_of(starts, panes, cwds),
        0 <= i < panes.len(),
    ensures
        starts.len() == panes.len(),
        starts[i].pane == panes[i],
        (starts[i].cwd is Some) == cwds.dom().contains(panes[i]),
        starts[i].cwd matches Some(d) ==> d@ == cwds[panes[i]],
{
    assert(opt_view(starts[i].cwd) == crate::tab::entry(cwds, panes[i]));
}

/// A pane keeps its history; one that had none gets one of its own, and no other pane does.
pub proof fn law_history_kept(
    before: Map<PaneId, u128>,
    after: Map<PaneId, u128>,
    panes: Seq<PaneId>,
    p: PaneId,
)
    requires
        given(before, after, panes),
    ensures
        before.dom().contains(p) ==> after.dom().contains(p) && after[p] == before[p],
        panes.contains(p) ==> after.dom().contains(p),
        !before.dom().contains(p) && !panes.contains(p) ==> !after.dom().contains(p),
{
    assert(after.contains_key(p) == (before.contains_key(p) || panes.contains(p)));
    if before.contains_key(p) {
        assert(after[p] == before[p]);
    }
}

/// The shell that started runs in its pane; one that did not start is told. Started again,
/// a pane is neither dead nor waiting any more.
pub proof fn law_shell_started(m: AppModel, index: usize, pane: PaneId, error: Seq<char>, j: int)
    requires
        index < m.tabs.len(),
    ensures
        ({
            let r = m.pane_begun(index, pane, None);
            &&& r.tabs[index as int].running.contains(pane)
            &&& r.tabs[index as int].layout == m.tabs[index as int].layout
            &&& r.error == m.error
            &&& 0 <= j < m.tabs.len() && j != index ==> r.tabs[j] == m.tabs[j]
        }),
        ({
            let r = m.pane_again(index, pane, None);
            &&& r.tabs[index as int].running.contains(pane)
            &&& !r.tabs[index as int].dead.contains(pane)
            &&& !r.tabs[index as int].pending.contains(pane)
            &&& r.tabs[index as int].layout == m.tabs[index as int].layout
            &&& 0 <= j < m.tabs.len() && j != index ==> r.tabs[j] == m.tabs[j]
        }),
        m.pane_begun(index, pane, Some(error)).error == Some(error),
        m.pane_begun(index, pane, Some(error)).tabs == m.tabs,
        m.pane_again(index, pane, Some(error)).error == Some(error),
        m.pane_again(index, pane, Some(error)).tabs == m.tabs,
{
    broadcast use vstd::seq_lib::group_filter_ensures;

    let f = crate::tab::other_pane(pane);
    let kept = crate::tab::less_pane(m.tabs[index as int].pending, pane);
    if kept.contains(pane) {
        let i = choose|i: int| 0 <= i < kept.len() && kept[i] == pane;
        assert(f(kept[i]));
    }
}

/// A shell that ends takes its pane with it; a connection that ends leaves its pane, dead.
pub proof fn law_exited(
    m: AppModel,
    pane: PaneId,
    index: usize,
    seen: Seq<(PaneId, Seq<char>)>,
    j: int,
)
    requires
        m.wf(),
        index < m.tabs.len(),
        m.tabs[index as int].layout.has(pane),
    ensures
        m.tabs[index as int].ssh is None && m.tabs[index as int].layout.order().len() > 1
            ==> !m.exiting(pane, index, seen).tabs[index as int].layout.has(pane),
        m.tabs[index as int].ssh is None && m.tabs[index as int].layout.order().len() <= 1
            ==> m.exiting(pane, index, seen).tabs == m.tabs.remove(index as int),
        m.tabs[index as int].ssh is Some ==> {
            let r = m.exiting(pane, index, seen);
            &&& r.tabs.len() == m.tabs.len()
            &&& r.tabs[index as int].dead.contains(pane)
            &&& r.tabs[index as int].layout == m.tabs[index as int].layout
            &&& 0 <= j < m.tabs.len() && j != index ==> r.tabs[j] == m.tabs[j]
        },
{
    assert(m.tabs[index as int].wf());
    if m.tabs[index as int].layout.order().len() > 1 {
        crate::tab::law_remove_pane(m.tabs[index as int], pane);
    }
}

/// The histories of open tabs, of profiles and of closed tabs are kept.
pub proof fn law_histories_kept(m: AppModel, i: int, p: PaneId, h: u128)
    ensures
        0 <= i < m.tabs.len() && m.tabs[i].histories.dom().contains(p) ==> m.keeps(
            m.tabs[i].histories[p],
        ),
        0 <= i < m.config.profiles.len() && m.config.profiles[i].tab.layout.history_ids().contains(
            h,
        ) ==> m.keeps(h),
        0 <= i < m.closed.len() && m.closed[i].tab.layout.history_ids().contains(h) ==> m.keeps(h),
{
    if 0 <= i < m.tabs.len() && m.tabs[i].histories.dom().contains(p) {
        assert(m.tabs[i].histories.contains_value(m.tabs[i].histories[p]));
    }
}

/// The host of a tab is the one it is connected to.
pub proof fn law_host_of_tab(m: AppModel, index: usize, h: int)
    ensures
        index >= m.tabs.len() ==> m.tab_host(index) is None,
        index < m.tabs.len() && m.tabs[index as int].ssh is None ==> m.tab_host(index) is None,
        m.tab_host(index) == Some(h) ==> 0 <= h < m.config.ssh.len() && Some(m.config.ssh[h].id)
            == m.tabs[index as int].ssh,
        index < m.tabs.len() && 0 <= h < m.config.ssh.len() && m.tabs[index as int].ssh == Some(
            m.config.ssh[h].id,
        ) ==> m.tab_host(index) is Some,
{
    if index < m.tabs.len() && m.tabs[index as int].ssh is Some {
        law_host_found(m.config.ssh, m.tabs[index as int].ssh->0, h);
    }
}

/// The file manager of a tab is opened once, for its host, in the folder that is given here
/// and in the one that the host remembers there; it is shown or hidden as asked.
pub proof fn law_files_opened(
    m: AppModel,
    index: usize,
    local: Seq<char>,
    error: Option<Seq<char>>,
    platform: Platform,
    h: int,
)
    requires
        m.tab_host(index) == Some(h),
    ensures
        ({
            let r = m.showing_files(index, true, local, error, platform);
            let tab = r.tabs[index as int];
            &&& tab.show_files
            &&& m.needs_files(index, true) ==> (tab.files matches Some(f) && f.host
                == m.config.ssh[h].id && f.local.path == local && (m.config.ssh[h].sftp_remote
                matches Some(p) ==> f.remote.path == p) && f.connected == (error is None))
            &&& !m.needs_files(index, true) ==> tab.files == m.tabs[index as int].files
        }),
        !m.showing_files(index, false, local, error, platform).tabs[index as int].show_files,
        m.showing_files(index, false, local, error, platform).tabs[index as int].files
            == m.tabs[index as int].files,
        !m.needs_files(index, false),
        m.needs_files(index, true) == (m.tabs[index as int].files is None),
{
}

proof fn lemma_with_folders(ssh: Seq<SshHostModel>, tabs: Seq<TabModel>, n: nat, i: int)
    requires
        0 <= i < ssh.len(),
        n <= tabs.len(),
    ensures
        with_folders(ssh, tabs, n).len() == ssh.len(),
        with_folders(ssh, tabs, n)[i].id == ssh[i].id,
        with_folders(ssh, tabs, n)[i].name == ssh[i].name,
        with_folders(ssh, tabs, n)[i].host == ssh[i].host,
        with_folders(ssh, tabs, n)[i].commands == ssh[i].commands,
        (forall|j: int|
            #![trigger tabs[j]]
            0 <= j < n && tabs[j].files is Some ==> tabs[j].files->0.host != ssh[i].id)
            ==> with_folders(ssh, tabs, n)[i] == ssh[i],
    decreases n,
{
    if n > 0 {
        lemma_with_folders(ssh, tabs, (n - 1) as nat, i);
        let rest = with_folders(ssh, tabs, (n - 1) as nat);
        if let Some(f) = tabs[n - 1].files {
            let k = host_place(rest, f.host);
            crate::ids::lemma_place(crate::arrange::host_ids(rest), f.host);
            if k < rest.len() {
                assert(crate::arrange::host_ids(rest)[k] == f.host);
                law_host_found(rest, f.host, k);
            }
        }
    }
}

/// Remembering the folders changes the folders of the hosts that have a file manager, and
/// nothing else.
pub proof fn law_folders_remembered(m: AppModel, i: int)
    requires
        0 <= i < m.config.ssh.len(),
    ensures
        ({
            let r = m.remembering_folders();
            &&& r.tabs == m.tabs
            &&& r.config.ssh.len() == m.config.ssh.len()
            &&& r.config.ssh[i].id == m.config.ssh[i].id
            &&& r.config.ssh[i].name == m.config.ssh[i].name
            &&& r.config.ssh[i].host == m.config.ssh[i].host
            &&& r.config.ssh[i].commands == m.config.ssh[i].commands
            &&& (forall|j: int|
                #![trigger m.tabs[j]]
                0 <= j < m.tabs.len() && m.tabs[j].files is Some ==> m.tabs[j].files->0.host
                    != m.config.ssh[i].id) ==> r.config.ssh[i] == m.config.ssh[i]
        }),
{
    lemma_with_folders(m.config.ssh, m.tabs, m.tabs.len(), i);
}

/// The folders of the last file manager of a host are those that it remembers.
pub proof fn law_last_folders(
    ssh: Seq<SshHostModel>,
    tabs: Seq<TabModel>,
    f: FileManagerModel,
    i: int,
)
    requires
        tabs.len() > 0,
        tabs.last().files == Some(f),
        0 <= i < ssh.len(),
        ssh[i].id == f.host,
        forall|j: int| 0 <= j < i ==> (#[trigger] ssh[j]).id != f.host,
    ensures
        with_folders(ssh, tabs, tabs.len())[i].sftp_local == Some(f.local.path),
        f.remote.path.len() > 0 ==> with_folders(ssh, tabs, tabs.len())[i].sftp_remote == Some(
            f.remote.path,
        ),
{
    let n = (tabs.len() - 1) as nat;
    let rest = with_folders(ssh, tabs, n);
    lemma_with_folders(ssh, tabs, n, i);
    assert forall|j: int| 0 <= j < i implies (#[trigger] rest[j]).id != f.host by {
        lemma_with_folders(ssh, tabs, n, j);
    }
    law_host_found(rest, f.host, i);
    let k = host_place(rest, f.host);
    assert(k == i);
}

/// What a close would stop: the program of a pane, or its connection. Nothing where it
/// ended, and nothing where the shell waits.
pub proof fn law_stopped_by_close(t: TabModel, title: Option<Seq<char>>, u: PaneUseModel)
    ensures
        u.exited || t.dead.contains(u.id) ==> interrupted(t, title, u) is None,
        !u.exited && !t.dead.contains(u.id) && t.ssh is Some ==> interrupted(t, title, u) is Some,
        t.ssh is None && u.program is None ==> interrupted(t, title, u) is None,
        !u.exited && !t.dead.contains(u.id) && t.ssh is None && u.program is Some ==> interrupted(
            t,
            title,
            u,
        ) is Some,
        interrupted(t, title, u) matches Some(line) ==> begins(line, t.called(title)),
{
    if let Some(line) = interrupted(t, title, u) {
        assert(line.take(t.called(title).len() as int) =~= t.called(title));
    }
}

/// Only the pane that is closed is asked about, where only it closes.
pub proof fn law_asks_about_the_pane(
    t: TabModel,
    title: Option<Seq<char>>,
    panes: Seq<PaneUseModel>,
    id: PaneId,
)
    ensures
        (forall|i: int|
            0 <= i < panes.len() && (#[trigger] panes[i]).id == id ==> interrupted(
                t,
                title,
                panes[i],
            ) is None) ==> interruptions(t, title, panes, Some(id)).len() == 0,
        (exists|i: int|
            0 <= i < panes.len() && (#[trigger] panes[i]).id == id && interrupted(
                t,
                title,
                panes[i],
            ) is Some) ==> interruptions(t, title, panes, Some(id)).len() > 0,
    decreases panes.len(),
{
    if panes.len() > 0 {
        let rest = panes.drop_last();
        law_asks_about_the_pane(t, title, rest, id);
        if forall|i: int|
            0 <= i < panes.len() && (#[trigger] panes[i]).id == id ==> interrupted(
                t,
                title,
                panes[i],
            ) is None {
            assert forall|i: int|
                0 <= i < rest.len() && (#[trigger] rest[i]).id == id implies interrupted(
                t,
                title,
                rest[i],
            ) is None by {
                assert(rest[i] == panes[i]);
            }
            assert(panes[panes.len() - 1] == panes.last());
        }
        if exists|i: int|
            0 <= i < panes.len() && (#[trigger] panes[i]).id == id && interrupted(
                t,
                title,
                panes[i],
            ) is Some {
            let i = choose|i: int|
                0 <= i < panes.len() && (#[trigger] panes[i]).id == id && interrupted(
                    t,
                    title,
                    panes[i],
                ) is Some;
            if i < rest.len() {
                assert(rest[i].id == id);
            }
        }
    }
}

/// The window asks about every tab; a new start asks like the window.
pub proof fn law_window_asks_about_all(m: AppModel, uses: Seq<TabUseModel>, n: nat, i: usize)
    requires
        n <= usize::MAX,
    ensures
        i < n && m.busy(i, None, uses).len() > 0 ==> m.busy_tabs(uses, n).len() > 0,
        (forall|k: usize| k < n ==> (#[trigger] m.busy(k, None, uses)).len() == 0) ==> m.busy_tabs(
            uses,
            n,
        ).len() == 0,
        m.busy_for(CloseRequest::Restart, uses) == m.busy_for(CloseRequest::Window, uses),
    decreases n,
{
    if n > 0 {
        law_window_asks_about_all(m, uses, (n - 1) as nat, i);
    }
}

/// A close that nothing speaks against does what was asked: the pane, the tab or the window
/// closes, or the app starts again.
pub proof fn law_closes_what_was_asked(
    m: AppModel,
    request: CloseRequest,
    uses: Seq<TabUseModel>,
    seen: Seq<(PaneId, Seq<char>)>,
)
    ensures
        request matches CloseRequest::Tab(i) ==> m.closing(request, seen) == m.closing_tab(i, seen)
            && left_to_close(request) is Nothing,
        request matches CloseRequest::Pane(i, p) ==> m.closing(request, seen) == m.closing_pane(
            i,
            p,
            seen,
        ) && left_to_close(request) is Nothing,
        request is Window ==> m.closing(request, seen).close_confirmed && m.closing(
            request,
            seen,
        ).tabs == m.tabs && left_to_close(request) is Window,
        request is Restart ==> m.closing(request, seen) == m && left_to_close(request) is Restart,
        m.busy_for(request, uses).len() == 0 ==> m.asked_to_close(request, uses, seen) == m.closing(
            request,
            seen,
        ) && m.request_left(request, uses) == left_to_close(request),
        m.busy_for(request, uses).len() > 0 ==> m.request_left(request, uses) is Nothing
            && m.asked_to_close(request, uses, seen).tabs == m.tabs,
        m.confirm_close matches Some(c) ==> m.answer_left(true) == left_to_close(c.request)
            && m.answer_left(false) is Nothing && m.answered(false, seen).tabs == m.tabs,
        m.confirm_close is None ==> m.answer_left(true) is Nothing,
{
}

/// The window stays open while something runs, until the close is confirmed.
pub proof fn law_window_held(m: AppModel, uses: Seq<TabUseModel>)
    ensures
        m.close_confirmed ==> !m.held_open(uses),
        !m.close_confirmed ==> m.held_open(uses) == (m.busy_tabs(uses, m.tabs.len()).len() > 0),
        m.held_open(uses) ==> (m.window_asked(uses).confirm_close matches Some(c) && c.request
            is Window && c.busy == m.busy_tabs(uses, m.tabs.len())),
        !m.held_open(uses) ==> m.window_asked(uses) == m,
        m.window_asked(uses).tabs == m.tabs,
{
}

/// Once another app takes over, or everything is put aside, nothing is written any more;
/// the window may close if that went well, and a failure is told.
pub proof fn law_handed_over(
    m: AppModel,
    error: Seq<char>,
    t: Strings,
    s: crate::config::SessionModel,
)
    ensures
        !m.handed_over().session_to_write(s),
        !m.resetting().session_to_write(s),
        !m.resetting().config_to_write(),
        m.relaunching(None, t).close_confirmed,
        m.relaunching(Some(error), t).close_confirmed == m.close_confirmed,
        m.relaunching(Some(error), t).error matches Some(e) && ends(e, error) && begins(
            e,
            t.update_failed@,
        ),
        m.reset_over(None).close_confirmed,
        m.reset_over(Some(error)).error == Some(error),
        m.reset_over(Some(error)).close_confirmed == m.close_confirmed,
{
    law_told(t.update_failed@, error);
}

/// The passwords that are forgotten are those of the hosts that have one saved.
pub proof fn law_saved_passwords(ssh: Seq<SshHostModel>, id: u128)
    ensures
        saved_passwords(ssh).contains(id) <==> exists|i: int|
            0 <= i < ssh.len() && (#[trigger] ssh[i]).id == id && ssh[i].password_saved,
    decreases ssh.len(),
{
    if ssh.len() > 0 {
        let rest = ssh.drop_last();
        law_saved_passwords(rest, id);
        let p = saved_passwords(rest);
        if ssh.last().password_saved {
            let all = p.push(ssh.last().id);
            assert(all.last() == ssh.last().id);
            assert(p.contains(id) ==> all.contains(id)) by {
                if p.contains(id) {
                    let k = choose|k: int| 0 <= k < p.len() && p[k] == id;
                    assert(all[k] == id);
                }
            }
            if all.contains(id) && id != ssh.last().id {
                let k = choose|k: int| 0 <= k < all.len() && all[k] == id;
                assert(p[k] == id);
            }
        }
        if exists|i: int| 0 <= i < rest.len() && (#[trigger] rest[i]).id == id
            && rest[i].password_saved {
            let i = choose|i: int| 0 <= i < rest.len() && (#[trigger] rest[i]).id == id
                && rest[i].password_saved;
            assert(ssh[i].id == id && ssh[i].password_saved);
        }
        if exists|i: int| 0 <= i < ssh.len() && (#[trigger] ssh[i]).id == id
            && ssh[i].password_saved {
            let i = choose|i: int| 0 <= i < ssh.len() && (#[trigger] ssh[i]).id == id
                && ssh[i].password_saved;
            if i < rest.len() {
                assert(rest[i].id == id && rest[i].password_saved);
            }
        }
        assert(ssh[ssh.len() - 1] == ssh.last());
    }
}

/// The shortcuts act on the tab that is shown and on the pane that was focused.
pub proof fn law_shortcuts(m: AppModel, pane: PaneId)
    ensures
        forall|f: Option<PaneId>| #[trigger]
            todo(m, ShortcutAction::NewTab, f) == Todo::NewTab,
        todo(m, ShortcutAction::ClosePane, Some(pane)) == Todo::Close(
            CloseRequest::Pane(m.active, pane),
        ),
        todo(m, ShortcutAction::ClosePane, None) == Todo::Nothing,
        forall|f: Option<PaneId>| #[trigger]
            todo(m, ShortcutAction::SplitRight, f) == Todo::Split(m.active, Direction::Right),
        forall|f: Option<PaneId>| #[trigger]
            todo(m, ShortcutAction::SplitDown, f) == Todo::Split(m.active, Direction::Down),
        todo(m, ShortcutAction::FindText, Some(pane)) == Todo::Search(m.active, pane, true),
        todo(m, ShortcutAction::FindCommands, Some(pane)) == Todo::Search(m.active, pane, false),
        m.closed.len() > 0 && m.closed.len() <= usize::MAX ==> (todo(
            m,
            ShortcutAction::ReopenTab,
            Some(pane),
        ) matches Todo::Reopen(i) && i == m.closed.len() - 1),
        m.closed.len() == 0 ==> todo(m, ShortcutAction::ReopenTab, Some(pane)) == Todo::Nothing,
        todo(m, ShortcutAction::OpenSettings, Some(pane)) == Todo::Settings(!m.settings_dialog),
        m.active < m.tabs.len() ==> {
            let tab = m.tabs[m.active as int];
            &&& tab.running.contains(tab.focused) ==> todo(
                m,
                ShortcutAction::ClearPane,
                Some(pane),
            ) == Todo::Clear(m.active, tab.focused)
            &&& tab.ssh is Some ==> todo(m, ShortcutAction::ToggleFiles, Some(pane)) == Todo::Files(
                m.active,
                !tab.show_files,
            )
            &&& tab.ssh is None ==> todo(m, ShortcutAction::ToggleFiles, Some(pane))
                == Todo::Nothing
            &&& m.focused_pane() == Some(tab.focused)
        },
        m.active >= m.tabs.len() ==> m.focused_pane() is None,
{
}

/// The digits choose a tab by its place, the last one the last tab.
pub proof fn law_digit_keys(digit: usize, count: nat)
    requires
        count <= usize::MAX,
    ensures
        digit < 8 ==> digit_tab(digit, count) == digit,
        count > 0 ==> digit_tab(8, count) == count - 1,
{
}

/// In a pane whose connection ended, Enter connects again and Escape closes; Escape also
/// closes one that is still silent. A pane that runs keeps its keys.
pub proof fn law_pane_keys(t: TabModel, silent: bool, enter: bool, escape: bool)
    ensures
        t.dead.contains(t.focused) && !(t.ssh is Some && t.running.contains(t.focused) && silent)
            ==> {
            &&& enter ==> pane_key(t, silent, enter, escape) == PaneKey::Reconnect(t.focused)
            &&& !enter && escape ==> pane_key(t, silent, enter, escape) == PaneKey::Close(t.focused)
        },
        t.ssh is Some && t.running.contains(t.focused) && silent && escape ==> pane_key(
            t,
            silent,
            enter,
            escape,
        ) == PaneKey::Close(t.focused),
        !t.dead.contains(t.focused) && !silent ==> pane_key(t, silent, enter, escape)
            == PaneKey::Nothing,
        !t.dead.contains(t.focused) && t.ssh is None ==> pane_key(t, silent, enter, escape)
            == PaneKey::Nothing,
        !enter && !escape ==> pane_key(t, silent, enter, escape) == PaneKey::Nothing,
{
}

/// A popup stays open as long as its pane is on the screen.
pub proof fn law_popups_on_screen(m: AppModel)
    ensures
        m.history_search matches Some(s) ==> (m.popups_on_screen().history_search == if s.tab
            == m.active && s.tab < m.tabs.len() && has_rect(m.tabs[s.tab as int].rects, s.pane) {
            Some(s)
        } else {
            None
        }),
        m.commands_menu matches Some(c) ==> (m.popups_on_screen().commands_menu == if c.tab
            == m.active && c.tab < m.tabs.len() && has_rect(m.tabs[c.tab as int].rects, c.pane) {
            Some(c)
        } else {
            None
        }),
        m.popups_on_screen().tabs == m.tabs,
{
}

/// A password can be filled in where the tab that is shown is connected to a host whose
/// password is saved. It is typed as it is, with Return; that it is missing is told.
pub proof fn law_password(m: AppModel, password: Seq<char>, t: Strings, i: int)
    ensures
        m.password_host() matches Some(id) ==> m.active < m.tabs.len()
            && m.tabs[m.active as int].ssh == Some(id),
        m.active < m.tabs.len() && 0 <= i < m.config.ssh.len() && m.tabs[m.active as int].ssh == Some(
            m.config.ssh[i].id,
        ) && m.config.ssh[i].password_saved ==> m.password_host() == Some(m.config.ssh[i].id),
        (forall|j: int| 0 <= j < m.config.ssh.len() ==> !(#[trigger] m.config.ssh[j]).password_saved)
            ==> m.password_host() is None,
        typed_password(Some(password)) matches Some(s) && s.len() == password.len() + 1 && begins(
            s,
            password,
        ) && s.last() == '\r',
        typed_password(None) is None,
        m.filling_password(true, t).error == m.error,
        m.filling_password(false, t).error is Some,
{
    reveal_strlit("\r");
    assert((password + "\r"@).take(password.len() as int) =~= password);
}

/// The title of the window starts with that of the tab and ends with that of the app.
pub proof fn law_window_title(official: bool, tab: Seq<char>)
    ensures
        begins(titled(official, Some(tab)), tab),
        ends(titled(official, Some(tab)), titled(official, None)),
        begins(titled(false, None), titled(true, None)),
        titled(false, None) != titled(true, None),
{
    let whole = titled(official, Some(tab));
    let app = app_title(official);
    assert(whole.take(tab.len() as int) =~= tab);
    assert(whole.skip(whole.len() - app.len()) =~= app);
    reveal_strlit("Ronnie");
    reveal_strlit("Ronnie (dev)");
    assert("Ronnie (dev)"@.take(6) =~= "Ronnie"@);
}

/// A pane of a host is labelled with its name and its address.
pub proof fn law_ssh_label(name: Seq<char>, address: Seq<char>)
    ensures
        begins(ssh_labelled(name, address), name),
        ends(ssh_labelled(name, address), address),
        ssh_labelled(name, address).len() > name.len() + address.len(),
{
    reveal_strlit("  ·  ");
    let r = ssh_labelled(name, address);
    assert(r.take(name.len() as int) =~= name);
    assert(r.skip(r.len() - address.len()) =~= address);
}

/// A look for updates is due only where it is wanted and possible; one that is due is noted.
pub proof fn law_update_wanted(published: bool, forced: bool, last: Option<u64>, now: u64)
    ensures
        !is_update_due(false, published, forced, last, now),
        !is_update_due(true, false, false, last, now),
        is_update_due(true, true, forced, None, now),
        is_update_due(true, published, true, None, now),
        last_looked(true, last, now) == Some(now),
        last_looked(false, last, now) == last,
{
}

/// The card offers a release until it is put off, tells that it is being installed and
/// that it is there, and why it failed only where it was tried.
pub proof fn law_update_card(v: String, dismissed: bool, attempted: bool, t: Strings)
    ensures
        card_text(Update::Available(v), true, attempted, t) is None,
        card_text(Update::Available(v), false, attempted, t) matches Some(c) && c.2,
        card_text(Update::Installing(v), dismissed, attempted, t) matches Some(c) && !c.2,
        card_text(Update::Installed(v), dismissed, attempted, t) matches Some(c) && c.2,
        card_text(Update::Failed(v), dismissed, false, t) is None,
        card_text(Update::Failed(v), dismissed, true, t) matches Some(c) && c.1 == Some(v@),
        card_text(Update::Idle, dismissed, attempted, t) is None,
        card_text(Update::Checking, dismissed, attempted, t) is None,
        card_text(Update::UpToDate, dismissed, attempted, t) is None,
        card_text(
            Update::Available(v),
            card_put_off(Update::Available(v), dismissed, attempted).0,
            attempted,
            t,
        ) is None,
        card_text(
            Update::Failed(v),
            dismissed,
            card_put_off(Update::Failed(v), dismissed, attempted).1,
            t,
        ) is None,
        card_accepted(Update::Available(v), attempted) == (CardClick::Install, true),
        card_accepted(Update::Installed(v), attempted).0 == CardClick::Restart,
        card_accepted(Update::Failed(v), attempted).0 == CardClick::Check,
        card_accepted(Update::Installing(v), attempted).0 == CardClick::Nothing,
{
}

/// The lines of a text that is to be pasted are shown from the first on; where there are
/// more than fit, the last one shown tells of them.
pub proof fn law_paste_shown(text: Seq<char>, i: int)
    ensures
        lines(text).len() <= 8 ==> paste_shown(text) == lines(text),
        lines(text).len() > 8 ==> paste_shown(text).len() == 9,
        0 <= i < lines(text).len() && i < 8 ==> paste_shown(text)[i] == lines(text)[i],
{
    if lines(text).len() <= 8 {
        assert(paste_shown(text) =~= lines(text));
    }
}

/// A directory is labelled by its last folders; the home directory and what is left out are
/// marked.
pub proof fn law_dir_label(home: bool, parts: Seq<Seq<char>>, skip: int)
    requires
        0 <= skip <= parts.len(),
    ensures
        ends(dir_label(home, parts, skip), crate::text::joined(parts.skip(skip), "/"@)),
        home && skip == 0 ==> begins(dir_label(home, parts, skip), "~"@),
        skip > 0 ==> begins(dir_label(home, parts, skip), "…"@),
        !home && skip == 0 ==> begins(dir_label(home, parts, skip), "/"@),
{
    reveal_strlit("~");
    reveal_strlit("…");
    reveal_strlit("/");
    let r = dir_label(home, parts, skip);
    let tail = crate::text::joined(parts.skip(skip), "/"@);
    assert(r.skip(r.len() - tail.len()) =~= tail);
    if skip > 0 {
        assert(r.take(1) =~= "…"@);
    } else if home {
        assert(r.take(1) =~= "~"@);
    } else {
        assert(r.take(1) =~= "/"@);
    }
}

/// The question before a close names the program and its folder.
pub proof fn law_program_named(t: TabModel, title: Option<Seq<char>>, u: PaneUseModel)
    requires
        t.ssh is None,
        interrupted(t, title, u) is Some,
    ensures
        u.program is Some && has_text(interrupted(t, title, u)->0, u.program->0),
        u.dir matches Some(d) ==> has_text(interrupted(t, title, u)->0, d),
{
    let line = interrupted(t, title, u)->0;
    let p = u.program->0;
    let i: int = t.called(title).len() + "  ·  "@.len() as int;
    assert(line.subrange(i, i + p.len()) =~= p);
    if let Some(d) = u.dir {
        let j: int = i + p.len() + "  ("@.len();
        assert(line.subrange(j, j + d.len()) =~= d);
    }
}

/// The card tells what is there to do, or why it failed, and of which version.
pub proof fn law_card_titles(v: String, t: Strings)
    ensures
        card_text(Update::Available(v), false, false, t) matches Some(c) && c.0 == versioned(
            t.update_available@,
            v@,
        ),
        card_text(Update::Installing(v), false, false, t) matches Some(c) && c.0 == versioned(
            t.installing@,
            v@,
        ),
        card_text(Update::Installed(v), false, false, t) matches Some(c) && c.0 == versioned(
            t.update_installed@,
            v@,
        ),
        card_text(Update::Failed(v), false, true, t) matches Some(c) && c.0 == t.update_failed@,
{
}

/// A pane that connects tells the name and the address of the host where the words have a
/// place for them.
pub proof fn law_connecting(
    t: Strings,
    a: Seq<char>,
    b: Seq<char>,
    c: Seq<char>,
    name: Seq<char>,
    address: Seq<char>,
)
    requires
        t.connecting@ == a + "{host}"@ + (b + "{address}"@ + c),
        !a.contains('{'),
        !b.contains('{'),
        !c.contains('{'),
        !name.contains('{'),
    ensures
        connecting_text(name, address, t) == a + name + b + address + c,
{
    reveal_strlit("{host}");
    reveal_strlit("{address}");
    let rest = b + "{address}"@ + c;
    law_substituted(a, "{host}"@, name, rest);
    lemma_address_kept(b, c, name);
    let head = a + name + b;
    assert(!head.contains('{')) by {
        if head.contains('{') {
            let k = choose|k: int| 0 <= k < head.len() && head[k] == '{';
            if k < a.len() {
                assert(a[k] == '{');
            } else if k < a.len() + name.len() {
                assert(name[k - a.len()] == '{');
            } else {
                assert(b[k - a.len() - name.len()] == '{');
            }
        }
    }
    assert(a + name + rest =~= head + "{address}"@ + c);
    law_substituted(head, "{address}"@, address, c);
    law_substituted(c, "{address}"@, address, Seq::empty());
}

proof fn lemma_address_kept(b: Seq<char>, c: Seq<char>, name: Seq<char>)
    requires
        !b.contains('{'),
        !c.contains('{'),
    ensures
        substituted(b + "{address}"@ + c, "{host}"@, name) == b + "{address}"@ + c,
    decreases b.len(),
{
    reveal_strlit("{host}");
    reveal_strlit("{address}");
    let s = b + "{address}"@ + c;
    if b.len() > 0 {
        let rest = b.drop_first();
        assert(!rest.contains('{')) by {
            if rest.contains('{') {
                let k = choose|k: int| 0 <= k < rest.len() && rest[k] == '{';
                assert(b[k + 1] == '{');
            }
        }
        lemma_address_kept(rest, c, name);
        assert(s.skip(1) =~= rest + "{address}"@ + c);
        assert(b.contains(b[0]));
        assert(!begins(s, "{host}"@)) by {
            if begins(s, "{host}"@) {
                assert(s.take(6)[0] == s[0]);
            }
        }
        assert(seq![s[0]] + s.skip(1) =~= s);
    } else {
        let tail = "address}"@ + c;
        reveal_strlit("address}");
        assert(!begins(s, "{host}"@)) by {
            if begins(s, "{host}"@) {
                assert(s.take(6)[1] == s[1]);
            }
        }
        assert(s.skip(1) =~= tail);
        assert(!tail.contains('{')) by {
            if tail.contains('{') {
                let k = choose|k: int| 0 <= k < tail.len() && tail[k] == '{';
                if k >= 8 {
                    assert(c[k - 8] == '{');
                }
            }
        }
        law_substituted(tail, "{host}"@, name, Seq::empty());
        assert(seq![s[0]] + s.skip(1) =~= s);
    }
}

/// The question about pasting tells how many lines there are.
pub proof fn law_paste_titled(text: Seq<char>, t: Strings, a: Seq<char>, b: Seq<char>)
    requires
        t.paste_title@ == a + "{n}"@ + b,
        !a.contains('{'),
        !b.contains('{'),
    ensures
        paste_titled(text, t) == a + decimal(lines(text).len()) + b,
{
    reveal_strlit("{n}");
    law_substituted(a, "{n}"@, decimal(lines(text).len()), b);
    law_substituted(b, "{n}"@, decimal(lines(text).len()), Seq::empty());
}

/// A close of a pane asks about that pane, one of a tab about all of its panes.
pub proof fn law_asks_about_what_closes(
    m: AppModel,
    index: usize,
    id: PaneId,
    uses: Seq<TabUseModel>,
)
    requires
        index < m.tabs.len(),
    ensures
        (forall|i: int|
            0 <= i < uses[index as int].panes.len() && (
            #[trigger] uses[index as int].panes[i]).id == id ==> interrupted(
                m.tabs[index as int],
                uses[index as int].title,
                uses[index as int].panes[i],
            ) is None) ==> m.busy_for(CloseRequest::Pane(index, id), uses).len() == 0,
        (exists|i: int|
            0 <= i < uses[index as int].panes.len() && (
            #[trigger] uses[index as int].panes[i]).id == id && interrupted(
                m.tabs[index as int],
                uses[index as int].title,
                uses[index as int].panes[i],
            ) is Some) ==> m.busy_for(CloseRequest::Pane(index, id), uses).len() > 0,
        (exists|i: int|
            0 <= i < uses[index as int].panes.len() && interrupted(
                m.tabs[index as int],
                uses[index as int].title,
                #[trigger] uses[index as int].panes[i],
            ) is Some) ==> m.busy_for(CloseRequest::Tab(index), uses).len() > 0,
{
    let u = uses[index as int];
    law_asks_about_the_pane(m.tabs[index as int], u.title, u.panes, id);
    crate::sorting::law_sorted(
        interruptions(m.tabs[index as int], u.title, u.panes, Some(id)),
    );
    crate::closing::law_busy(m, index, uses);
}

} // verus!
