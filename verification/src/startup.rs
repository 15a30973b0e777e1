//! Starting: the window as the last session left it.

use crate::app::{App, AppModel};
use crate::app_laws::{law_open_tab, law_updating};
use crate::config::{
    Config, ConfigModel, ProfileModel, Session, SessionModel, SessionTab, SessionTabModel, Settings,
    SettingsModel, TabStateModel,
};
use crate::find::{find_host, find_profile, has_host, has_profile, profile_place};
use crate::model::{lemma_update, models, Duplicate};
use crate::restore::{in_range, law_state_round_trip};
use crate::session::{caused, of_profiles, with_cause};
use crate::strings::Strings;
use crate::tab::TabModel;
use vstd::prelude::*;

verus! {

broadcast use vstd::std_specs::hash::group_hash_axioms;

/// The state a saved tab starts from. A profile tab starts from its profile: it may
/// have been edited in config.json since.
pub open spec fn starting_state(profiles: Seq<ProfileModel>, tab: SessionTabModel) -> TabStateModel {
    match tab.profile {
        Some(id) => if has_profile(profiles, id) {
            profiles[profile_place(profiles, id)].tab
        } else {
            tab.tab
        },
        None => tab.tab,
    }
}

/// How many panes the first saved tabs have.
pub open spec fn pane_count(profiles: Seq<ProfileModel>, tabs: Seq<SessionTabModel>, n: nat) -> nat
    decreases n,
{
    if n == 0 {
        0
    } else {
        pane_count(profiles, tabs, (n - 1) as nat) + starting_state(
            profiles,
            tabs[n - 1],
        ).layout.count()
    }
}

impl AppModel {
    /// With a saved tab open again. SSH tabs reconnect when first shown, like other
    /// restored tabs start their shell.
    pub open spec fn restoring(self, tab: SessionTabModel) -> AppModel {
        let m = self.opening(starting_state(self.config.profiles, tab), tab.profile);
        match tab.ssh {
            Some(id) => AppModel {
                tabs: m.tabs.update(
                    m.tabs.len() - 1,
                    TabModel {
                        ssh: if has_host(m.config.ssh, id) {
                            Some(id)
                        } else {
                            None
                        },
                        ..m.tabs.last()
                    },
                ),
                ..m
            },
            None => m,
        }
    }

    /// With the first saved tabs open again.
    pub open spec fn restoring_all(self, tabs: Seq<SessionTabModel>, n: nat) -> AppModel
        decreases n,
    {
        if n == 0 {
            self
        } else {
            self.restoring_all(tabs, (n - 1) as nat).restoring(tabs[n - 1])
        }
    }

    /// A window with no tab.
    pub open spec fn blank(settings: SettingsModel) -> AppModel {
        AppModel {
            tabs: Seq::empty(),
            active: 0,
            rename: None,
            focus_terminal: true,
            error: None,
            next_pane: 1,
            config: ConfigModel::blank(settings),
            closed: Seq::empty(),
            saved_config: ConfigModel::blank(settings),
            saved_session: SessionModel {
                tabs: Seq::empty(),
                active: 0,
                closed: Seq::empty(),
                window: None,
            },
            config_writable: true,
            window: None,
            settings_dialog: false,
            group_rename: None,
            item_rename: None,
            commands_menu: None,
            history_search: None,
            read_only: false,
            session_frozen: false,
            confirm_close: None,
            close_confirmed: false,
        }
    }

    /// With the config that was read at startup, or without one: profiles are unknown
    /// then, so nothing of them is written until a restart with a valid file.
    pub open spec fn loading(
        self,
        config: Result<ConfigModel, Seq<char>>,
        exists: bool,
        t: Strings,
    ) -> AppModel {
        match config {
            Ok(c) => AppModel {
                config: c,
                saved_config: if exists {
                    c
                } else {
                    self.saved_config
                },
                ..self
            },
            Err(e) => AppModel {
                config_writable: false,
                session_frozen: true,
                error: Some(caused(t.config_not_loaded@, e)),
                ..self
            },
        }
    }

    /// With the knowledge whether another one runs on the same config.
    pub open spec fn locking(self, read_only: bool, t: Strings) -> AppModel {
        if read_only {
            AppModel { read_only: true, error: Some(t.already_running@), ..self }
        } else {
            self
        }
    }

    /// With a session that could not be read.
    pub open spec fn losing_session(self, error: Seq<char>, t: Strings) -> AppModel {
        AppModel {
            session_frozen: true,
            error: Some(caused(t.session_not_loaded@, error)),
            ..self
        }
    }

    /// With the tabs of the last session.
    pub open spec fn resuming(self, session: SessionModel) -> AppModel {
        let m = AppModel {
            closed: session.closed.filter(of_profiles(self.config.profiles)),
            window: session.window,
            ..self
        }.restoring_all(session.tabs, session.tabs.len());
        AppModel {
            active: if session.active < m.tabs.len() {
                session.active
            } else if m.tabs.len() > 0 {
                (m.tabs.len() - 1) as usize
            } else {
                0
            },
            saved_session: session,
            config_writable: self.config_writable && !self.read_only,
            ..m
        }
    }
}

pub open spec fn config_result(c: Result<Config, String>) -> Result<ConfigModel, Seq<char>> {
    match c {
        Ok(c) => Ok(c@),
        Err(e) => Err(e@),
    }
}

/// Opening tabs changes the tabs, and neither the config nor the rest.
pub proof fn lemma_restoring(m: AppModel, tabs: Seq<SessionTabModel>, n: nat)
    ensures
        ({
            let r = m.restoring_all(tabs, n);
            r == (AppModel {
                tabs: r.tabs,
                active: r.active,
                next_pane: r.next_pane,
                focus_terminal: r.focus_terminal,
                ..m
            })
        }),
        m.restoring_all(tabs, n).tabs.len() == m.tabs.len() + n,
        m.next_pane + pane_count(m.config.profiles, tabs, n) <= u64::MAX ==> m.restoring_all(
            tabs,
            n,
        ).next_pane == m.next_pane + pane_count(m.config.profiles, tabs, n),
    decreases n,
{
    if n > 0 {
        lemma_restoring(m, tabs, (n - 1) as nat);
    }
}

proof fn lemma_pane_count(profiles: Seq<ProfileModel>, tabs: Seq<SessionTabModel>, i: nat, n: nat)
    requires
        i <= n,
    ensures
        pane_count(profiles, tabs, i) <= pane_count(profiles, tabs, n),
    decreases n,
{
    if i < n {
        lemma_pane_count(profiles, tabs, i, (n - 1) as nat);
    }
}

impl App {
    /// A window with no tab.
    pub fn blank(settings: Settings) -> (r: App)
        ensures
            r@ == AppModel::blank(settings@),
    {
        let saved = settings.duplicate();
        let r = App {
            tabs: Vec::new(),
            active: 0,
            rename: None,
            focus_terminal: true,
            error: None,
            next_pane: 1,
            config: Config::new(settings),
            closed: Vec::new(),
            saved_config: Config::new(saved),
            saved_session: Session::default(),
            config_writable: true,
            window: None,
            settings_dialog: false,
            group_rename: None,
            item_rename: None,
            commands_menu: None,
            history_search: None,
            read_only: false,
            session_frozen: false,
            confirm_close: None,
            close_confirmed: false,
        };
        assert(r@ =~= AppModel::blank(settings@));
        r
    }

    /// Notes whether another Ronnie runs on the same config: this one writes nothing then.
    pub fn locked(&mut self, read_only: bool, t: &Strings)
        ensures
            final(self)@ == if read_only {
                AppModel { read_only: true, error: Some(t.already_running@), ..old(self)@ }
            } else {
                old(self)@
            },
            final(self)@ == old(self)@.locking(read_only, *t),
    {
        if read_only {
            self.read_only = true;
            self.error = Some(t.already_running.to_owned());
        }
    }

    /// Takes the config that was read at startup. One built from older files (where
    /// `exists` is false) is written out on the first sync.
    pub fn load(&mut self, config: Result<Config, String>, exists: bool, t: &Strings)
        ensures
            final(self)@ == old(self)@.loading(config_result(config), exists, *t),
    {
        match config {
            Ok(c) => {
                if exists {
                    self.saved_config = c.duplicate();
                }
                self.config = c;
            },
            Err(e) => {
                self.config_writable = false;
                self.session_frozen = true;
                self.error = Some(with_cause(t.config_not_loaded, e.as_str()));
            },
        }
    }

    /// Notes that the session could not be read: it isn't saved this run.
    pub fn session_lost(&mut self, error: &str, t: &Strings)
        ensures
            final(self)@ == (AppModel {
                session_frozen: true,
                error: Some(caused(t.session_not_loaded@, error@)),
                ..old(self)@
            }),
            final(self)@ == old(self)@.losing_session(error@, *t),
    {
        self.session_frozen = true;
        self.error = Some(with_cause(t.session_not_loaded, error));
    }

    fn restore_tab(&mut self, tab: &SessionTab)
        requires
            old(self).next_pane + starting_state(
                old(self)@.config.profiles,
                tab@,
            ).layout.count() <= u64::MAX,
        ensures
            final(self)@ == old(self)@.restoring(tab@),
    {
        let p = match tab.profile {
            Some(id) => find_profile(&self.config.profiles, id),
            None => self.config.profiles.len(),
        };
        if p < self.config.profiles.len() {
            let state = self.config.profiles[p].tab.duplicate();
            assert(state@ == self@.config.profiles[p as int].tab);
            self.open_tab(&state, tab.profile);
        } else {
            self.open_tab(&tab.tab, tab.profile);
        }
        let ghost m = self@;
        if let Some(id) = tab.ssh {
            let known = find_host(&self.config.ssh, id) < self.config.ssh.len();
            let last = self.tabs.len() - 1;
            let ghost before = self.tabs@;
            self.tabs[last].ssh = if known {
                Some(id)
            } else {
                None
            };
            proof {
                lemma_update(before, last as int, self.tabs@[last as int]);
                assert(self.tabs@ =~= before.update(last as int, self.tabs@[last as int]));
                assert(before[last as int]@ == m.tabs.last());
            }
        }
    }

    /// Opens the tabs of the last session again.
    pub fn resume(&mut self, session: Session)
        requires
            old(self).next_pane + pane_count(
                old(self)@.config.profiles,
                session@.tabs,
                session@.tabs.len(),
            ) <= u64::MAX,
        ensures
            final(self)@ == old(self)@.resuming(session@),
    {
        let ghost m = self@;
        let ghost tabs = session@.tabs;
        self.closed = crate::session::keep_closed(&session.closed, &self.config);
        self.window = session.window;
        let ghost start = self@;
        let mut i: usize = 0;
        while i < session.tabs.len()
            invariant
                i <= session.tabs@.len(),
                tabs == models(session.tabs@),
                start.config == m.config,
                start.next_pane == m.next_pane,
                start.next_pane + pane_count(start.config.profiles, tabs, tabs.len()) <= u64::MAX,
                self@ == start.restoring_all(tabs, i as nat),
            decreases session.tabs.len() - i,
        {
            proof {
                lemma_restoring(start, tabs, i as nat);
                lemma_pane_count(start.config.profiles, tabs, (i + 1) as nat, tabs.len());
                lemma_pane_count(start.config.profiles, tabs, i as nat, tabs.len());
                assert(tabs[i as int] == session.tabs@[i as int]@);
            }
            self.restore_tab(&session.tabs[i]);
            i += 1;
        }
        proof {
            lemma_restoring(start, tabs, tabs.len());
        }
        self.active = if session.active < self.tabs.len() {
            session.active
        } else if self.tabs.len() > 0 {
            self.tabs.len() - 1
        } else {
            0
        };
        self.saved_session = session;
        if self.read_only {
            self.config_writable = false;
        }
    }
}

/// A resumed window holds together.
pub proof fn law_resumed(m: AppModel, session: SessionModel)
    requires
        m.wf(),
        m.tabs.len() + session.tabs.len() <= usize::MAX,
        m.next_pane + pane_count(m.config.profiles, session.tabs, session.tabs.len()) <= u64::MAX,
    ensures
        m.resuming(session).wf(),
{
    let start = AppModel {
        closed: session.closed.filter(of_profiles(m.config.profiles)),
        window: session.window,
        ..m
    };
    crate::app_laws::lemma_same_tabs(m, start);
    lemma_restored(start, session.tabs, session.tabs.len());
    crate::app_laws::lemma_same_tabs(
        start.restoring_all(session.tabs, session.tabs.len()),
        m.resuming(session),
    );
}

proof fn lemma_restored(m: AppModel, tabs: Seq<SessionTabModel>, n: nat)
    requires
        m.wf(),
        m.tabs.len() + n <= usize::MAX,
        m.next_pane + pane_count(m.config.profiles, tabs, n) <= u64::MAX,
    ensures
        m.restoring_all(tabs, n).wf(),
    decreases n,
{
    if n > 0 {
        lemma_pane_count(m.config.profiles, tabs, (n - 1) as nat, n);
        lemma_restored(m, tabs, (n - 1) as nat);
        lemma_restoring(m, tabs, (n - 1) as nat);
        let r = m.restoring_all(tabs, (n - 1) as nat);
        let tab = tabs[n - 1];
        let state = starting_state(r.config.profiles, tab);
        law_open_tab(r, state, tab.profile);
        let o = r.opening(state, tab.profile);
        if tab.ssh is Some {
            let last = o.tabs.len() - 1;
            let t = r.restoring(tab).tabs[last];
            assert(o.tabs[last].wf());
            law_updating(o, last, t, o.next_pane);
        }
    }
}

/// While another Ronnie holds the config, and until it is read again, nothing
/// allows the file to be overwritten.
pub proof fn law_read_only_writes_nothing(m: AppModel, session: SessionModel, c: ConfigModel)
    requires
        m.read_only,
    ensures
        !m.resuming(session).config_writable,
        !m.reloaded(c).config_writable,
{
}

/// Every saved tab is there again, in order, as it was saved (or as its profile now
/// is), its ratios in range.
pub proof fn law_every_tab_resumed(m: AppModel, session: SessionModel, i: int)
    requires
        0 <= i < session.tabs.len(),
        m.next_pane + pane_count(m.config.profiles, session.tabs, session.tabs.len()) <= u64::MAX,
    ensures
        ({
            let r = m.resuming(session);
            let tab = r.tabs[m.tabs.len() + i];
            let state = starting_state(m.config.profiles, session.tabs[i]);
            &&& r.tabs.len() == m.tabs.len() + session.tabs.len()
            &&& tab.profile == m.existing(session.tabs[i].profile)
            &&& tab.snapshot().name == state.name
            &&& tab.snapshot().color == state.color
            &&& tab.snapshot().layout == in_range(state.layout)
        }),
{
    let start = AppModel {
        closed: session.closed.filter(of_profiles(m.config.profiles)),
        window: session.window,
        ..m
    };
    lemma_restoring(start, session.tabs, session.tabs.len());
    lemma_restored_tab(start, session.tabs, session.tabs.len(), i);
}

proof fn lemma_restored_tab(m: AppModel, tabs: Seq<SessionTabModel>, n: nat, i: int)
    requires
        0 <= i < n,
        m.next_pane + pane_count(m.config.profiles, tabs, n) <= u64::MAX,
    ensures
        ({
            let tab = m.restoring_all(tabs, n).tabs[m.tabs.len() + i];
            let state = starting_state(m.config.profiles, tabs[i]);
            &&& tab.profile == m.existing(tabs[i].profile)
            &&& tab.snapshot().name == state.name
            &&& tab.snapshot().color == state.color
            &&& tab.snapshot().layout == in_range(state.layout)
        }),
    decreases n,
{
    lemma_restoring(m, tabs, (n - 1) as nat);
    lemma_pane_count(m.config.profiles, tabs, (n - 1) as nat, n);
    let r = m.restoring_all(tabs, (n - 1) as nat);
    if i < n - 1 {
        lemma_restored_tab(m, tabs, (n - 1) as nat, i);
        assert(m.restoring_all(tabs, n).tabs[m.tabs.len() + i] == r.tabs[m.tabs.len() + i]);
    } else {
        let state = starting_state(r.config.profiles, tabs[i]);
        law_state_round_trip(state, r.next_pane as int, r.existing(tabs[i].profile));
    }
}

} // verus!
