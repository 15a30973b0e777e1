//! The state of the window: its tabs, the config and the popups, and how opening
//! and closing tabs changes them.

use crate::config::{
    Config, ConfigModel, ProfileModel, Session, SessionModel, SessionTab, SessionTabModel, TabState,
    TabStateModel, WindowState, MAX_CLOSED,
};
use crate::find::{find_host, find_profile, has_profile, host_place, profile_place};
use crate::model::{lemma_push, lemma_remove, lemma_update, models, Duplicate};
use crate::pane::{Direction, Node, PaneId};
use crate::paths::str_view;
use crate::restore::{rebuild, rebuilt};
use crate::search::{HistorySearch, SearchModel};
use crate::tab::{seen_views, Tab, TabModel};
use crate::text::{opt_view, views};
use vstd::prelude::*;

verus! {

/// A tab being renamed.
#[derive(Debug)]
pub struct Rename {
    pub tab: usize,
    pub text: String,
    /// Frames left during which the whole name stays selected, so typing replaces it. Counted only once
    /// the mouse is released, otherwise the double-click that opened the editor would move the cursor.
    pub select_all: u8,
    /// Why the typed name was refused (already used by another profile).
    pub error: Option<&'static str>,
}

#[verifier::ext_equal]
pub struct RenameModel {
    pub tab: usize,
    pub text: Seq<char>,
    pub select_all: u8,
    pub error: Option<Seq<char>>,
}

impl View for Rename {
    type V = RenameModel;

    open spec fn view(&self) -> RenameModel {
        RenameModel {
            tab: self.tab,
            text: self.text@,
            select_all: self.select_all,
            error: str_view(self.error),
        }
    }
}

/// A profile being renamed in the sidebar.
#[derive(Debug)]
pub struct ItemRename {
    pub id: u128,
    pub text: String,
    pub error: Option<&'static str>,
    /// Just opened: take focus and select everything.
    pub fresh: bool,
}

#[verifier::ext_equal]
pub struct ItemRenameModel {
    pub id: u128,
    pub text: Seq<char>,
    pub error: Option<Seq<char>>,
    pub fresh: bool,
}

impl View for ItemRename {
    type V = ItemRenameModel;

    open spec fn view(&self) -> ItemRenameModel {
        ItemRenameModel {
            id: self.id,
            text: self.text@,
            error: str_view(self.error),
            fresh: self.fresh,
        }
    }
}

/// The menu of a pane: saved commands to write at its prompt, and adding / removing them.
#[derive(Debug)]
pub struct CommandsMenu {
    pub tab: usize,
    pub pane: PaneId,
    pub new_command: String,
    /// Add to the tab's profile or host rather than to the general commands.
    pub for_tab: bool,
}

#[verifier::ext_equal]
pub struct CommandsMenuModel {
    pub tab: usize,
    pub pane: PaneId,
    pub new_command: Seq<char>,
    pub for_tab: bool,
}

impl View for CommandsMenu {
    type V = CommandsMenuModel;

    open spec fn view(&self) -> CommandsMenuModel {
        CommandsMenuModel {
            tab: self.tab,
            pane: self.pane,
            new_command: self.new_command@,
            for_tab: self.for_tab,
        }
    }
}

impl CommandsMenu {
    /// The menu of a pane, just opened.
    pub fn new(tab: usize, pane: PaneId) -> (r: CommandsMenu)
        ensures
            r@ == (CommandsMenuModel { tab, pane, new_command: Seq::empty(), for_tab: true }),
            r@ == CommandsMenuModel::opened(tab, pane),
    {
        let none = String::new();
        assert(none@ =~= Seq::empty());
        CommandsMenu { tab, pane, new_command: none, for_tab: true }
    }
}

/// Something the user asked to close, which may interrupt running programs.
#[derive(Clone, Copy, PartialEq, Eq, Structural, Debug)]
pub enum CloseRequest {
    Pane(usize, PaneId),
    Tab(usize),
    Window,
    /// Close to start the updated app.
    Restart,
}

/// A close waiting for confirmation, with what it would interrupt.
#[derive(Debug)]
pub struct ConfirmClose {
    pub request: CloseRequest,
    pub busy: Vec<String>,
}

#[verifier::ext_equal]
pub struct ConfirmCloseModel {
    pub request: CloseRequest,
    pub busy: Seq<Seq<char>>,
}

impl View for ConfirmClose {
    type V = ConfirmCloseModel;

    open spec fn view(&self) -> ConfirmCloseModel {
        ConfirmCloseModel { request: self.request, busy: views(self.busy@) }
    }
}

/// The model of a value that may be missing.
pub open spec fn opt<T: View>(x: Option<T>) -> Option<T::V> {
    match x {
        Some(x) => Some(x@),
        None => None,
    }
}

/// The state of the window.
#[derive(Debug)]
pub struct App {
    pub tabs: Vec<Tab>,
    pub active: usize,
    pub rename: Option<Rename>,
    pub focus_terminal: bool,
    pub error: Option<String>,
    pub next_pane: PaneId,
    pub config: Config,
    /// Recently closed tabs, most recent last.
    pub closed: Vec<SessionTab>,
    /// What was last written to disk, to skip identical writes.
    pub saved_config: Config,
    pub saved_session: Session,
    /// False while config.json can't be read (invalid JSON...): never overwrite the user's file then.
    pub config_writable: bool,
    pub window: Option<WindowState>,
    pub settings_dialog: bool,
    /// Group being renamed: id, typed name, whether the editor was just opened.
    pub group_rename: Option<(u128, String, bool)>,
    /// Profile being renamed in the sidebar.
    pub item_rename: Option<ItemRename>,
    /// Saved commands menu open over a pane.
    pub commands_menu: Option<CommandsMenu>,
    /// History search open over a pane.
    pub history_search: Option<HistorySearch>,
    /// Another Ronnie runs on the same config: this one writes nothing.
    pub read_only: bool,
    /// config.json or session.json couldn't be read at startup: the session isn't saved this run.
    pub session_frozen: bool,
    /// Close waiting for the user to confirm, because programs are running.
    pub confirm_close: Option<ConfirmClose>,
    /// The window may close without asking again (confirmed, or restarting).
    pub close_confirmed: bool,
}

#[verifier::ext_equal]
pub struct AppModel {
    pub tabs: Seq<TabModel>,
    pub active: usize,
    pub rename: Option<RenameModel>,
    pub focus_terminal: bool,
    pub error: Option<Seq<char>>,
    pub next_pane: PaneId,
    pub config: ConfigModel,
    pub closed: Seq<SessionTabModel>,
    pub saved_config: ConfigModel,
    pub saved_session: SessionModel,
    pub config_writable: bool,
    pub window: Option<WindowState>,
    pub settings_dialog: bool,
    pub group_rename: Option<(u128, Seq<char>, bool)>,
    pub item_rename: Option<ItemRenameModel>,
    pub commands_menu: Option<CommandsMenuModel>,
    pub history_search: Option<SearchModel>,
    pub read_only: bool,
    pub session_frozen: bool,
    pub confirm_close: Option<ConfirmCloseModel>,
    pub close_confirmed: bool,
}

impl View for App {
    type V = AppModel;

    open spec fn view(&self) -> AppModel {
        AppModel {
            tabs: models(self.tabs@),
            active: self.active,
            rename: opt(self.rename),
            focus_terminal: self.focus_terminal,
            error: opt_view(self.error),
            next_pane: self.next_pane,
            config: self.config@,
            closed: models(self.closed@),
            saved_config: self.saved_config@,
            saved_session: self.saved_session@,
            config_writable: self.config_writable,
            window: self.window,
            settings_dialog: self.settings_dialog,
            group_rename: match self.group_rename {
                Some(g) => Some((g.0, g.1@, g.2)),
                None => None,
            },
            item_rename: opt(self.item_rename),
            commands_menu: opt(self.commands_menu),
            history_search: opt(self.history_search),
            read_only: self.read_only,
            session_frozen: self.session_frozen,
            confirm_close: opt(self.confirm_close),
            close_confirmed: self.close_confirmed,
        }
    }
}

/// Where the first tab of a profile stands, or the number of tabs.
pub open spec fn profile_tab(tabs: Seq<TabModel>, id: u128) -> int
    decreases tabs.len(),
{
    if tabs.len() == 0 || tabs[0].profile == Some(id) {
        0
    } else {
        1 + profile_tab(tabs.drop_first(), id)
    }
}

/// Where the first tab of an SSH host stands, or the number of tabs.
pub open spec fn ssh_tab(tabs: Seq<TabModel>, id: u128) -> int
    decreases tabs.len(),
{
    if tabs.len() == 0 || tabs[0].ssh == Some(id) {
        0
    } else {
        1 + ssh_tab(tabs.drop_first(), id)
    }
}

/// `profile_tab` is the first place of the profile.
pub proof fn lemma_profile_tab(tabs: Seq<TabModel>, id: u128, n: int)
    requires
        0 <= n <= tabs.len(),
        forall|j: int| 0 <= j < n ==> (#[trigger] tabs[j]).profile != Some(id),
        n < tabs.len() ==> tabs[n].profile == Some(id),
    ensures
        profile_tab(tabs, id) == n,
    decreases n,
{
    if n > 0 {
        let rest = tabs.drop_first();
        assert forall|j: int| 0 <= j < n - 1 implies (#[trigger] rest[j]).profile != Some(id) by {
            assert(rest[j] == tabs[j + 1]);
        }
        lemma_profile_tab(rest, id, n - 1);
    }
}

/// What `profile_tab` says: it is the first place of the profile, or the number of
/// tabs where none is of it.
pub proof fn lemma_profile_tab_is(tabs: Seq<TabModel>, id: u128)
    ensures
        0 <= profile_tab(tabs, id) <= tabs.len(),
        profile_tab(tabs, id) < tabs.len() ==> tabs[profile_tab(tabs, id)].profile == Some(id),
        forall|j: int| 0 <= j < profile_tab(tabs, id) ==> (#[trigger] tabs[j]).profile != Some(id),
    decreases tabs.len(),
{
    if tabs.len() > 0 && tabs[0].profile != Some(id) {
        let rest = tabs.drop_first();
        lemma_profile_tab_is(rest, id);
        assert forall|j: int| 0 <= j < profile_tab(tabs, id) implies (#[trigger] tabs[j]).profile
            != Some(id) by {
            if j > 0 {
                assert(rest[j - 1] == tabs[j]);
            }
        }
    }
}

/// `ssh_tab` is the first place of the host.
pub proof fn lemma_ssh_tab(tabs: Seq<TabModel>, id: u128, n: int)
    requires
        0 <= n <= tabs.len(),
        forall|j: int| 0 <= j < n ==> (#[trigger] tabs[j]).ssh != Some(id),
        n < tabs.len() ==> tabs[n].ssh == Some(id),
    ensures
        ssh_tab(tabs, id) == n,
    decreases n,
{
    if n > 0 {
        let rest = tabs.drop_first();
        assert forall|j: int| 0 <= j < n - 1 implies (#[trigger] rest[j]).ssh != Some(id) by {
            assert(rest[j] == tabs[j + 1]);
        }
        lemma_ssh_tab(rest, id, n - 1);
    }
}

/// An index into the tabs after one of them is closed; none if it was that one.
pub open spec fn shifted(i: usize, closed: usize) -> Option<usize> {
    if i == closed {
        None
    } else if i > closed {
        Some((i - 1) as usize)
    } else {
        Some(i)
    }
}

/// What is asked to close after a tab is closed; none if it went with it.
pub open spec fn shifted_request(r: CloseRequest, closed: usize) -> Option<CloseRequest> {
    match r {
        CloseRequest::Pane(i, p) => match shifted(i, closed) {
            Some(i) => Some(CloseRequest::Pane(i, p)),
            None => None,
        },
        CloseRequest::Tab(i) => match shifted(i, closed) {
            Some(i) => Some(CloseRequest::Tab(i)),
            None => None,
        },
        other => Some(other),
    }
}

/// A rename after a tab is closed; none if it was of that tab.
pub open spec fn shifted_rename(r: Option<RenameModel>, closed: usize) -> Option<RenameModel> {
    match r {
        Some(r) => match shifted(r.tab, closed) {
            Some(tab) => Some(RenameModel { tab, ..r }),
            None => None,
        },
        None => None,
    }
}

/// A search after a tab is closed; none if it was in that tab.
pub open spec fn shifted_search(s: Option<SearchModel>, closed: usize) -> Option<SearchModel> {
    match s {
        Some(s) => match shifted(s.tab, closed) {
            Some(tab) => Some(SearchModel { tab, ..s }),
            None => None,
        },
        None => None,
    }
}

/// A menu after a tab is closed; none if it was in that tab.
pub open spec fn shifted_menu(m: Option<CommandsMenuModel>, closed: usize) -> Option<
    CommandsMenuModel,
> {
    match m {
        Some(m) => match shifted(m.tab, closed) {
            Some(tab) => Some(CommandsMenuModel { tab, ..m }),
            None => None,
        },
        None => None,
    }
}

/// A question after a tab is closed; none if it was about that tab.
pub open spec fn shifted_confirm(c: Option<ConfirmCloseModel>, closed: usize) -> Option<
    ConfirmCloseModel,
> {
    match c {
        Some(c) => match shifted_request(c.request, closed) {
            Some(request) => Some(ConfirmCloseModel { request, ..c }),
            None => None,
        },
        None => None,
    }
}

/// Closed tabs of other profiles.
pub open spec fn not_of(profile: Option<u128>) -> spec_fn(SessionTabModel) -> bool {
    |c: SessionTabModel| c.profile != profile
}

/// The recently closed tabs with one more: only profiles are worth reopening, each
/// once, and the oldest is forgotten where there are too many.
pub open spec fn remembered(
    closed: Seq<SessionTabModel>,
    profile: Option<u128>,
    state: TabStateModel,
) -> Seq<SessionTabModel> {
    if profile is None {
        closed
    } else {
        let all = closed.filter(not_of(profile)).push(
            SessionTabModel { profile, ssh: None, tab: state },
        );
        if all.len() > MAX_CLOSED {
            all.remove(0)
        } else {
            all
        }
    }
}

/// The profiles, with the state of one.
pub open spec fn with_state(
    profiles: Seq<ProfileModel>,
    id: Option<u128>,
    state: TabStateModel,
) -> Seq<ProfileModel> {
    match id {
        Some(id) => {
            let i = profile_place(profiles, id);
            if i < profiles.len() {
                profiles.update(i, ProfileModel { tab: state, ..profiles[i] })
            } else {
                profiles
            }
        },
        None => profiles,
    }
}

impl AppModel {
    /// With one more tab, which is shown.
    pub open spec fn adding(self, tab: TabModel, next_pane: PaneId) -> AppModel {
        AppModel {
            tabs: self.tabs.push(tab),
            active: self.tabs.len() as usize,
            focus_terminal: true,
            next_pane,
            ..self
        }
    }

    /// A profile, if it still exists.
    pub open spec fn existing(self, profile: Option<u128>) -> Option<u128> {
        match profile {
            Some(id) => if has_profile(self.config.profiles, id) {
                Some(id)
            } else {
                None
            },
            None => None,
        }
    }

    /// With a tab rebuilt from a saved state.
    pub open spec fn opening(self, state: TabStateModel, profile: Option<u128>) -> AppModel {
        self.adding(
            rebuilt(state, self.next_pane as int, self.existing(profile)),
            (self.next_pane + state.layout.count()) as u64,
        )
    }

    /// With a tab shown.
    pub open spec fn selecting(self, index: usize) -> AppModel {
        if index < self.tabs.len() {
            AppModel { active: index, focus_terminal: true, ..self }
        } else {
            self
        }
    }

    /// With a profile open: its tab, or one rebuilt from it.
    pub open spec fn opening_profile(self, id: u128) -> AppModel {
        let i = profile_tab(self.tabs, id);
        let p = profile_place(self.config.profiles, id);
        if i < self.tabs.len() {
            self.selecting(i as usize)
        } else if p < self.config.profiles.len() {
            self.opening(self.config.profiles[p].tab, Some(id))
        } else {
            self
        }
    }

    /// The tab of a host, not connected yet.
    pub open spec fn host_tab(self, h: int) -> TabModel {
        let host = self.config.ssh[h];
        TabModel {
            pending: seq![self.next_pane],
            ssh: Some(host.id),
            name: Some(host.name),
            color: host.color,
            ..TabModel::fresh(Node::Leaf(self.next_pane))
        }
    }

    /// With an SSH host open: its tab, or a new one.
    pub open spec fn opening_ssh(self, id: u128) -> AppModel {
        let i = ssh_tab(self.tabs, id);
        let h = host_place(self.config.ssh, id);
        if i < self.tabs.len() {
            self.selecting(i as usize)
        } else if h < self.config.ssh.len() {
            self.adding(self.host_tab(h), (self.next_pane + 1) as u64)
        } else {
            self
        }
    }

    /// With a recently closed tab open again. Its profile holds the latest state, and
    /// may already be open.
    pub open spec fn reopening(self, index: usize) -> AppModel {
        if index < self.closed.len() {
            let tab = self.closed[index as int];
            let m = AppModel { closed: self.closed.remove(index as int), ..self };
            match m.existing(tab.profile) {
                Some(id) => m.opening_profile(id),
                None => m.opening(tab.tab, None),
            }
        } else {
            self
        }
    }

    /// With a new tab, whose terminal runs.
    pub open spec fn with_new_tab(self, history: u128) -> AppModel {
        let id = self.next_pane;
        self.adding(
            TabModel {
                running: Set::empty().insert(id),
                histories: Map::empty().insert(id, history),
                ..TabModel::fresh(Node::Leaf(id))
            },
            (id + 1) as u64,
        )
    }

    /// With the focused pane of a tab split.
    pub open spec fn splitting(self, index: usize, side: Direction, history: u128) -> AppModel {
        if index < self.tabs.len() {
            AppModel {
                tabs: self.tabs.update(
                    index as int,
                    self.tabs[index as int].split(self.next_pane, side, history),
                ),
                next_pane: (self.next_pane + 1) as u64,
                focus_terminal: true,
                ..self
            }
        } else {
            self
        }
    }

    /// Without a tab, whose panes were last seen in some directories. Whatever points
    /// at a tab by its index follows the shift, or is dropped with the closed tab.
    pub open spec fn closing_tab(self, index: usize, seen: Seq<(PaneId, Seq<char>)>) -> AppModel {
        if index < self.tabs.len() {
            let tab = self.tabs[index as int];
            let state = tab.seeing(seen).snapshot();
            let tabs = self.tabs.remove(index as int);
            AppModel {
                tabs,
                config: ConfigModel {
                    profiles: with_state(self.config.profiles, tab.profile, state),
                    ..self.config
                },
                closed: remembered(self.closed, tab.profile, state),
                rename: shifted_rename(self.rename, index),
                history_search: shifted_search(self.history_search, index),
                commands_menu: shifted_menu(self.commands_menu, index),
                confirm_close: shifted_confirm(self.confirm_close, index),
                active: if (self.active > index || self.active >= tabs.len()) && self.active > 0 {
                    (self.active - 1) as usize
                } else {
                    self.active
                },
                focus_terminal: true,
                ..self
            }
        } else {
            self
        }
    }

    /// Without a pane; the last one takes its tab with it.
    pub open spec fn closing_pane(
        self,
        index: usize,
        pane: PaneId,
        seen: Seq<(PaneId, Seq<char>)>,
    ) -> AppModel {
        if index < self.tabs.len() {
            if self.tabs[index as int].layout.order().len() <= 1 {
                self.closing_tab(index, seen)
            } else {
                AppModel {
                    tabs: self.tabs.update(
                        index as int,
                        self.tabs[index as int].without_pane(pane),
                    ),
                    focus_terminal: self.focus_terminal || index == self.active,
                    ..self
                }
            }
        } else {
            self
        }
    }

    /// With the focus moved to a neighbour in the tab shown.
    pub open spec fn focusing(self, dir: Direction) -> AppModel {
        if self.active < self.tabs.len() {
            let tab = self.tabs[self.active as int];
            match crate::pane::neighbor_id(tab.rects, tab.focused, dir) {
                Some(id) => AppModel {
                    tabs: self.tabs.update(
                        self.active as int,
                        TabModel { focused: id, ..tab },
                    ),
                    focus_terminal: true,
                    ..self
                },
                None => self,
            }
        } else {
            self
        }
    }
}

fn shift(i: usize, closed: usize) -> (r: Option<usize>)
    ensures
        r == shifted(i, closed),
{
    if i == closed {
        None
    } else if i > closed {
        Some(i - 1)
    } else {
        Some(i)
    }
}

fn shift_rename(r: Option<Rename>, closed: usize) -> (s: Option<Rename>)
    ensures
        opt(s) == shifted_rename(opt(r), closed),
{
    match r {
        Some(mut r) => match shift(r.tab, closed) {
            Some(tab) => {
                r.tab = tab;
                Some(r)
            },
            None => None,
        },
        None => None,
    }
}

fn shift_search(s: Option<HistorySearch>, closed: usize) -> (r: Option<HistorySearch>)
    ensures
        opt(r) == shifted_search(opt(s), closed),
{
    match s {
        Some(mut s) => match shift(s.tab, closed) {
            Some(tab) => {
                s.tab = tab;
                Some(s)
            },
            None => None,
        },
        None => None,
    }
}

fn shift_menu(m: Option<CommandsMenu>, closed: usize) -> (r: Option<CommandsMenu>)
    ensures
        opt(r) == shifted_menu(opt(m), closed),
{
    match m {
        Some(mut m) => match shift(m.tab, closed) {
            Some(tab) => {
                m.tab = tab;
                Some(m)
            },
            None => None,
        },
        None => None,
    }
}

fn shift_confirm(c: Option<ConfirmClose>, closed: usize) -> (r: Option<ConfirmClose>)
    ensures
        opt(r) == shifted_confirm(opt(c), closed),
{
    let mut c = match c {
        Some(c) => c,
        None => {
            return None;
        },
    };
    let request = match c.request {
        CloseRequest::Pane(i, p) => match shift(i, closed) {
            Some(i) => Some(CloseRequest::Pane(i, p)),
            None => None,
        },
        CloseRequest::Tab(i) => match shift(i, closed) {
            Some(i) => Some(CloseRequest::Tab(i)),
            None => None,
        },
        CloseRequest::Window => Some(CloseRequest::Window),
        CloseRequest::Restart => Some(CloseRequest::Restart),
    };
    match request {
        Some(request) => {
            c.request = request;
            Some(c)
        },
        None => None,
    }
}

fn remember(closed: &Vec<SessionTab>, profile: Option<u128>, state: TabState) -> (r: Vec<SessionTab>)
    requires
        profile is Some,
    ensures
        models(r@) == remembered(models(closed@), profile, state@),
{
    let ghost all = models(closed@);
    let ghost p = not_of(profile);
    let mut r: Vec<SessionTab> = Vec::new();
    let mut i: usize = 0;
    proof {
        reveal(Seq::filter);
        assert(models(r@) =~= all.take(0).filter(p));
    }
    while i < closed.len()
        invariant
            i <= closed@.len(),
            all == models(closed@),
            p == not_of(profile),
            models(r@) == all.take(i as int).filter(p),
        decreases closed.len() - i,
    {
        proof {
            reveal(Seq::filter);
            assert(all.take(i + 1).drop_last() =~= all.take(i as int));
        }
        if closed[i].profile != profile {
            let ghost before = r@;
            let c = closed[i].duplicate();
            r.push(c);
            proof {
                lemma_push(before, c);
            }
        }
        i += 1;
    }
    assert(all.take(i as int) =~= all);
    let ghost before = r@;
    let tab = SessionTab { profile, ssh: None, tab: state };
    r.push(tab);
    proof {
        lemma_push(before, tab);
    }
    if r.len() > MAX_CLOSED {
        let ghost full = r@;
        r.remove(0);
        proof {
            lemma_remove(full, 0);
        }
    }
    r
}

impl Config {
    /// Puts the state of a tab into its profile, if that exists.
    pub fn update_profile(&mut self, id: Option<u128>, state: TabState) -> (found: bool)
        ensures
            final(self)@ == (ConfigModel {
                profiles: with_state(old(self)@.profiles, id, state@),
                ..old(self)@
            }),
            found == (id matches Some(p) && has_profile(old(self)@.profiles, p)),
            found == updates(old(self)@.profiles, id),
    {
        if let Some(id) = id {
            let i = find_profile(&self.profiles, id);
            if i < self.profiles.len() {
                let ghost before = self.profiles@;
                self.profiles[i].tab = state;
                proof {
                    lemma_update(before, i as int, self.profiles@[i as int]);
                    assert(self.profiles@ =~= before.update(i as int, self.profiles@[i as int]));
                }
                return true;
            }
        }
        false
    }
}

impl App {
    /// Where the first tab of a profile stands, or the number of tabs.
    pub fn find_profile_tab(&self, id: u128) -> (r: usize)
        ensures
            r == profile_tab(self@.tabs, id),
            r <= self.tabs@.len(),
    {
        let mut i: usize = 0;
        while i < self.tabs.len() && self.tabs[i].profile != Some(id)
            invariant
                i <= self.tabs@.len(),
                forall|j: int| 0 <= j < i ==> (#[trigger] self@.tabs[j]).profile != Some(id),
            decreases self.tabs.len() - i,
        {
            i += 1;
        }
        proof {
            lemma_profile_tab(self@.tabs, id, i as int);
        }
        i
    }

    /// Where the first tab of an SSH host stands, or the number of tabs.
    pub fn find_ssh_tab(&self, id: u128) -> (r: usize)
        ensures
            r == ssh_tab(self@.tabs, id),
            r <= self.tabs@.len(),
    {
        let mut i: usize = 0;
        while i < self.tabs.len() && self.tabs[i].ssh != Some(id)
            invariant
                i <= self.tabs@.len(),
                forall|j: int| 0 <= j < i ==> (#[trigger] self@.tabs[j]).ssh != Some(id),
            decreases self.tabs.len() - i,
        {
            i += 1;
        }
        proof {
            lemma_ssh_tab(self@.tabs, id, i as int);
        }
        i
    }

    fn add_tab(&mut self, tab: Tab)
        ensures
            final(self)@ == old(self)@.adding(tab@, old(self)@.next_pane),
    {
        let ghost before = self.tabs@;
        self.tabs.push(tab);
        proof {
            lemma_push(before, tab);
        }
        self.active = self.tabs.len() - 1;
        self.focus_terminal = true;
    }

    /// Opens a tab rebuilt from a saved state (profile, closed tab or previous session).
    pub fn open_tab(&mut self, state: &TabState, profile: Option<u128>)
        requires
            old(self).next_pane + state@.layout.count() <= u64::MAX,
        ensures
            final(self)@ == old(self)@.opening(state@, profile),
    {
        let known = match profile {
            Some(id) => if find_profile(&self.config.profiles, id) < self.config.profiles.len() {
                Some(id)
            } else {
                None
            },
            None => None,
        };
        let mut next = self.next_pane;
        let tab = rebuild(state, &mut next, known);
        self.next_pane = next;
        self.add_tab(tab);
    }

    /// Shows a tab.
    pub fn select(&mut self, index: usize)
        ensures
            final(self)@ == old(self)@.selecting(index),
    {
        if index < self.tabs.len() {
            self.active = index;
            self.focus_terminal = true;
        }
    }

    /// Opens a profile, or switches to its tab if it is already open (a profile is open at most once).
    pub fn open_profile(&mut self, id: u128)
        requires
            has_profile(old(self)@.config.profiles, id) ==> old(self).next_pane
                + old(self)@.config.profiles[profile_place(
                old(self)@.config.profiles,
                id,
            )].tab.layout.count() <= u64::MAX,
        ensures
            final(self)@ == old(self)@.opening_profile(id),
    {
        let index = self.find_profile_tab(id);
        if index < self.tabs.len() {
            self.select(index);
        } else {
            let p = find_profile(&self.config.profiles, id);
            if p < self.config.profiles.len() {
                let state = self.config.profiles[p].tab.duplicate();
                assert(state@ == self@.config.profiles[p as int].tab);
                self.open_tab(&state, Some(id));
            }
        }
    }

    /// Connects to an SSH host, or switches to its tab if it is already open.
    pub fn open_ssh(&mut self, id: u128)
        requires
            old(self).next_pane < u64::MAX,
        ensures
            final(self)@ == old(self)@.opening_ssh(id),
    {
        let index = self.find_ssh_tab(id);
        if index < self.tabs.len() {
            self.select(index);
            return;
        }
        let h = find_host(&self.config.ssh, id);
        if h < self.config.ssh.len() {
            let ghost m = self@;
            let pane = self.next_pane;
            let mut tab = Tab::new(Node::Leaf(pane));
            tab.pending.push(pane);
            tab.ssh = Some(id);
            tab.name = Some(self.config.ssh[h].name.clone());
            tab.color = self.config.ssh[h].color;
            proof {
                assert(tab@.pending =~= seq![pane]);
                assert(m.config.ssh[h as int] == self.config.ssh@[h as int]@);
                assert(tab@ =~= m.host_tab(h as int));
            }
            self.next_pane = pane + 1;
            self.add_tab(tab);
        }
    }

    /// Opens a recently closed tab again.
    pub fn reopen_closed(&mut self, index: usize)
        requires
            index < old(self)@.closed.len() ==> {
                let tab = old(self)@.closed[index as int];
                match old(self)@.existing(tab.profile) {
                    Some(id) => old(self).next_pane + old(self)@.config.profiles[profile_place(
                        old(self)@.config.profiles,
                        id,
                    )].tab.layout.count() <= u64::MAX,
                    None => old(self).next_pane + tab.tab.layout.count() <= u64::MAX,
                }
            },
        ensures
            final(self)@ == old(self)@.reopening(index),
    {
        if index >= self.closed.len() {
            return;
        }
        let ghost before = self.closed@;
        let tab = self.closed.remove(index);
        proof {
            lemma_remove(before, index as int);
            assert(tab@ == models(before)[index as int]);
        }
        let profile = match tab.profile {
            Some(id) => if find_profile(&self.config.profiles, id) < self.config.profiles.len() {
                Some(id)
            } else {
                None
            },
            None => None,
        };
        match profile {
            Some(id) => self.open_profile(id),
            None => self.open_tab(&tab.tab, None),
        }
    }

    /// Adds the tab of a terminal that was started, with its history.
    pub fn new_tab(&mut self, history: u128)
        requires
            old(self).next_pane < u64::MAX,
        ensures
            final(self)@ == old(self)@.with_new_tab(history),
    {
        let ghost m = self@;
        let id = self.next_pane;
        self.next_pane = id + 1;
        let mut tab = Tab::new(Node::Leaf(id));
        tab.started_with(id, history);
        self.add_tab(tab);
        assert(self@ =~= m.with_new_tab(history));
    }

    /// Splits the focused pane of a tab: a new pane, whose terminal was started, on a side of it.
    pub fn split(&mut self, index: usize, side: Direction, history: u128)
        requires
            old(self).next_pane < u64::MAX,
        ensures
            final(self)@ == old(self)@.splitting(index, side, history),
    {
        if index < self.tabs.len() {
            let ghost before = self.tabs@;
            let id = self.next_pane;
            self.next_pane = id + 1;
            self.tabs[index].add_split(id, side, history);
            self.focus_terminal = true;
            proof {
                lemma_update(before, index as int, self.tabs@[index as int]);
                assert(self.tabs@ =~= before.update(index as int, self.tabs@[index as int]));
            }
        }
    }

    /// Closes a tab; `seen` are the directories that its terminals are in.
    pub fn close_tab(&mut self, index: usize, seen: &Vec<(PaneId, String)>)
        ensures
            final(self)@ == old(self)@.closing_tab(index, seen_views(seen@)),
    {
        if index >= self.tabs.len() {
            return;
        }
        let ghost m = self@;
        let ghost before = self.tabs@;
        let mut tab = self.tabs.remove(index);
        proof {
            lemma_remove(before, index as int);
            assert(tab@ == m.tabs[index as int]);
        }
        let state = tab.state(seen);
        let copy = state.duplicate();
        self.config.update_profile(tab.profile, copy);
        // Only profiles are worth reopening; a plain terminal is just a new tab.
        if tab.profile.is_some() {
            self.closed = remember(&self.closed, tab.profile, state);
        }
        self.rename = shift_rename(self.rename.take(), index);
        self.history_search = shift_search(self.history_search.take(), index);
        self.commands_menu = shift_menu(self.commands_menu.take(), index);
        self.confirm_close = shift_confirm(self.confirm_close.take(), index);
        if (self.active > index || self.active >= self.tabs.len()) && self.active > 0 {
            self.active = self.active - 1;
        }
        self.focus_terminal = true;
        assert(self@ =~= m.closing_tab(index, seen_views(seen@)));
    }

    /// Closes a pane of a tab; the last one takes its tab with it.
    pub fn close_pane(&mut self, index: usize, pane: PaneId, seen: &Vec<(PaneId, String)>)
        ensures
            final(self)@ == old(self)@.closing_pane(index, pane, seen_views(seen@)),
    {
        if index >= self.tabs.len() {
            return;
        }
        let ghost m = self@;
        let ghost before = self.tabs@;
        if !self.tabs[index].remove_pane(pane) {
            proof {
                assert(models(self.tabs@) =~= models(before));
                assert(self@ =~= m);
            }
            self.close_tab(index, seen);
        } else {
            if index == self.active {
                self.focus_terminal = true;
            }
            proof {
                lemma_update(before, index as int, self.tabs@[index as int]);
                assert(self.tabs@ =~= before.update(index as int, self.tabs@[index as int]));
            }
        }
    }

    /// Moves the focus to a neighbour, in the tab shown.
    pub fn focus_neighbor(&mut self, dir: Direction)
        ensures
            final(self)@ == old(self)@.focusing(dir),
    {
        let i = self.active;
        if i < self.tabs.len() {
            let ghost m = self@;
            let ghost before = self.tabs@;
            let moved = self.tabs[i].focus_neighbor(dir);
            if moved {
                self.focus_terminal = true;
            }
            proof {
                lemma_update(before, i as int, self.tabs@[i as int]);
                assert(self.tabs@ =~= before.update(i as int, self.tabs@[i as int]));
                if !moved {
                    assert(models(self.tabs@) =~= m.tabs);
                }
                assert(self@ =~= m.focusing(dir));
            }
        }
    }
}

impl CommandsMenuModel {
    /// The menu as it opens.
    pub open spec fn opened(tab: usize, pane: PaneId) -> CommandsMenuModel {
        CommandsMenuModel { tab, pane, new_command: Seq::empty(), for_tab: true }
    }
}

/// Whether a state is one of a profile that exists.
pub open spec fn updates(profiles: Seq<ProfileModel>, id: Option<u128>) -> bool {
    id matches Some(p) && has_profile(profiles, p)
}

} // verus!
