//! Keeping the window and what is on disk in step: saving what changed, and
//! following outside edits of the config.

use crate::app::{with_state, App, AppModel};
use crate::arrange::{normalized, profile_ids};
use crate::config::{
    Config, ConfigModel, Profile, ProfileModel, Session, SessionModel, SessionTab, SessionTabModel,
    SshHost, SshHostModel, TabStateModel, WindowState,
};
use crate::find::{find_host, find_profile, has_host, has_profile, host_place, profile_place};
use crate::ids::{is_random, lemma_place};
use crate::model::{duplicate_all, lemma_push, lemma_update, models, Duplicate, Same};
use crate::pane::{PaneId, Real};
use crate::strings::Strings;
use crate::tab::{seen_views, Tab, TabModel};
use crate::text::{clone_opt, same_str};
use vstd::prelude::*;

verus! {

broadcast use vstd::std_specs::hash::group_hash_axioms;

/// A message with its cause.
pub open spec fn caused(message: Seq<char>, cause: Seq<char>) -> Seq<char> {
    message + " : "@ + cause
}

/// A message with its cause.
pub fn with_cause(message: &str, cause: &str) -> (r: String)
    ensures
        r@ == caused(message@, cause@),
{
    let mut r = message.to_owned();
    r.push_str(" : ");
    r.push_str(cause);
    r
}

/// The geometry to remember: the normal size is kept while maximized or fullscreen.
pub open spec fn geometry(
    window: Option<WindowState>,
    outer: (Real, Real),
    inner: (Real, Real),
    maximized: bool,
    fullscreen: bool,
) -> WindowState {
    let zero = Real { bits: 0 };
    let w = match window {
        Some(w) => w,
        None => WindowState { x: zero, y: zero, width: zero, height: zero, maximized, fullscreen },
    };
    if maximized || fullscreen {
        WindowState { maximized, fullscreen, ..w }
    } else {
        WindowState {
            x: outer.0,
            y: outer.1,
            width: inner.0,
            height: inner.1,
            maximized,
            fullscreen,
        }
    }
}

/// A tab with the name and the color of its host, if it has one.
pub open spec fn named_by_host(t: TabModel, ssh: Seq<SshHostModel>) -> TabModel {
    match t.ssh {
        Some(id) => if has_host(ssh, id) {
            let host = ssh[host_place(ssh, id)];
            TabModel { name: Some(host.name), color: host.color, ..t }
        } else {
            t
        },
        None => t,
    }
}

/// A tab without its profile, if that is no more.
pub open spec fn with_live_profile(t: TabModel, profiles: Seq<ProfileModel>) -> TabModel {
    TabModel {
        profile: match t.profile {
            Some(id) => if has_profile(profiles, id) {
                Some(id)
            } else {
                None
            },
            None => None,
        },
        ..t
    }
}

/// Tabs, profiles and the session's tabs, in step.
#[verifier::ext_equal]
pub struct Synced {
    pub tabs: Seq<TabModel>,
    pub profiles: Seq<ProfileModel>,
    pub session: Seq<SessionTabModel>,
}

/// The first tabs pushed into their profiles, and what is saved of them.
pub open spec fn synced(
    c: ConfigModel,
    tabs: Seq<TabModel>,
    seen: Seq<Seq<(PaneId, Seq<char>)>>,
    n: nat,
) -> Synced
    decreases n,
{
    if n == 0 {
        Synced { tabs: Seq::empty(), profiles: c.profiles, session: Seq::empty() }
    } else {
        let rest = synced(c, tabs, seen, (n - 1) as nat);
        let t = named_by_host(tabs[n - 1], c.ssh).seeing(seen[n - 1]);
        let state = t.snapshot();
        let live = with_live_profile(t, c.profiles);
        Synced {
            tabs: rest.tabs.push(live),
            profiles: with_state(rest.profiles, t.profile, state),
            session: rest.session.push(
                SessionTabModel { profile: live.profile, ssh: t.ssh, tab: state },
            ),
        }
    }
}

/// Lists of directories that panes were seen in, one for each tab.
pub open spec fn all_seen(s: Seq<Vec<(PaneId, String)>>) -> Seq<Seq<(PaneId, Seq<char>)>> {
    s.map_values(|v: Vec<(PaneId, String)>| seen_views(v@))
}

impl AppModel {
    /// With every tab pushed into its profile.
    pub open spec fn syncing(self, seen: Seq<Seq<(PaneId, Seq<char>)>>) -> AppModel {
        let s = synced(self.config, self.tabs, seen, self.tabs.len());
        AppModel {
            tabs: s.tabs,
            config: ConfigModel { profiles: s.profiles, ..self.config },
            ..self
        }
    }

    /// The session to save.
    pub open spec fn session(self, seen: Seq<Seq<(PaneId, Seq<char>)>>) -> SessionModel {
        SessionModel {
            tabs: synced(self.config, self.tabs, seen, self.tabs.len()).session,
            active: self.active,
            closed: self.closed,
            window: self.window,
        }
    }
}

/// Where the state of a profile goes does not depend on the states of the others.
pub proof fn lemma_synced_ids(
    c: ConfigModel,
    tabs: Seq<TabModel>,
    seen: Seq<Seq<(PaneId, Seq<char>)>>,
    n: nat,
)
    ensures
        profile_ids(synced(c, tabs, seen, n).profiles) == profile_ids(c.profiles),
    decreases n,
{
    if n > 0 {
        lemma_synced_ids(c, tabs, seen, (n - 1) as nat);
        let rest = synced(c, tabs, seen, (n - 1) as nat);
        let t = named_by_host(tabs[n - 1], c.ssh).seeing(seen[n - 1]);
        lemma_with_state_ids(rest.profiles, t.profile, t.snapshot());
    }
}

/// Putting a state into a profile keeps the ids.
pub proof fn lemma_with_state_ids(
    profiles: Seq<ProfileModel>,
    id: Option<u128>,
    state: TabStateModel,
)
    ensures
        profile_ids(with_state(profiles, id, state)) == profile_ids(profiles),
{
    if let Some(id) = id {
        lemma_place(profile_ids(profiles), id);
    }
    assert(profile_ids(with_state(profiles, id, state)) =~= profile_ids(profiles));
}

/// A tab that follows the profiles of a config: an edited name and color show up on
/// it, and it forgets a profile that is no more.
pub open spec fn following(t: TabModel, profiles: Seq<ProfileModel>) -> TabModel {
    match t.profile {
        Some(id) => if has_profile(profiles, id) {
            let p = profiles[profile_place(profiles, id)];
            TabModel { name: p.tab.name, color: p.tab.color, ..t }
        } else {
            TabModel { profile: None, ..t }
        },
        None => t,
    }
}

/// Closed tabs whose profile exists.
pub open spec fn of_profiles(profiles: Seq<ProfileModel>) -> spec_fn(SessionTabModel) -> bool {
    |c: SessionTabModel| c.profile is Some && has_profile(profiles, c.profile->0)
}

impl AppModel {
    /// With another config, and the tabs following it.
    pub open spec fn configured(self, config: ConfigModel) -> AppModel {
        AppModel {
            tabs: self.tabs.map_values(|t: TabModel| following(t, config.profiles)),
            closed: self.closed.filter(of_profiles(config.profiles)),
            config,
            error: None,
            ..self
        }
    }

    /// With a config that was read from the file.
    pub open spec fn reloaded(self, config: ConfigModel) -> AppModel {
        AppModel {
            config_writable: !self.read_only,
            saved_config: config,
            ..self
        }.configured(config)
    }

    /// With a config that could not be read: it is not overwritten.
    pub open spec fn config_lost(self, error: Seq<char>, t: Strings) -> AppModel {
        AppModel {
            config_writable: false,
            error: Some(caused(t.config_not_loaded@, error)),
            ..self
        }
    }

    /// Whether a session is to be written.
    pub open spec fn session_to_write(self, session: SessionModel) -> bool {
        !self.read_only && !self.session_frozen && !Session::equal(session, self.saved_session)
    }

    /// After a session was written, or failed to be.
    pub open spec fn session_saved(
        self,
        session: SessionModel,
        failure: Option<Seq<char>>,
        t: Strings,
    ) -> AppModel {
        match failure {
            None => AppModel { saved_session: session, ..self },
            Some(e) => AppModel { error: Some(caused(t.session_save_failed@, e)), ..self },
        }
    }

    /// Whether the config is to be written.
    pub open spec fn config_to_write(self) -> bool {
        self.config_writable && !Config::equal(self.config, self.saved_config)
    }

    /// After the config was written, or failed to be.
    pub open spec fn config_saved(self, failure: Option<Seq<char>>, t: Strings) -> AppModel {
        match failure {
            None => AppModel { saved_config: self.config, ..self },
            Some(e) => AppModel {
                error: Some(caused(t.config_save_failed@, e)),
                config_writable: false,
                ..self
            },
        }
    }

    /// With the window geometry as it was seen.
    pub open spec fn tracking(
        self,
        outer: Option<(Real, Real)>,
        inner: Option<(Real, Real)>,
        maximized: bool,
        fullscreen: bool,
    ) -> AppModel {
        match (outer, inner) {
            (Some(o), Some(i)) => AppModel {
                window: Some(geometry(self.window, o, i, maximized, fullscreen)),
                ..self
            },
            _ => self,
        }
    }
}

/// Why a write failed, if it did.
pub open spec fn failure(result: Result<(), String>) -> Option<Seq<char>> {
    match result {
        Ok(_) => None,
        Err(e) => Some(e@),
    }
}

/// Whether a file changed since the time that is known.
pub open spec fn changed_since(modified: Option<u64>, known: Option<u64>) -> bool {
    modified is Some && modified != known
}

/// A profile that is no more keeps no state.
proof fn lemma_no_profile(profiles: Seq<ProfileModel>, id: Option<u128>, state: TabStateModel)
    ensures
        id is Some && !has_profile(profiles, id->0) ==> with_state(profiles, id, state) == profiles,
{
    if let Some(id) = id {
        lemma_place(profile_ids(profiles), id);
    }
}

impl Tab {
    /// Takes the name and the color of its host, if it has one.
    pub fn follow_host(&mut self, hosts: &Vec<SshHost>)
        ensures
            final(self)@ == named_by_host(old(self)@, models(hosts@)),
    {
        if let Some(id) = self.ssh {
            let h = find_host(hosts, id);
            if h < hosts.len() {
                assert(models(hosts@)[h as int] == hosts@[h as int]@);
                self.name = Some(hosts[h].name.clone());
                self.color = hosts[h].color;
            }
        }
    }

    /// Forgets its profile if that is no more.
    pub fn check_profile(&mut self, profiles: &Vec<Profile>)
        ensures
            final(self)@ == with_live_profile(old(self)@, models(profiles@)),
    {
        if let Some(id) = self.profile {
            if find_profile(profiles, id) >= profiles.len() {
                self.profile = None;
            }
        }
    }

    /// Takes the name and the color of its profile, or forgets it if it is no more.
    pub fn follow_profile(&mut self, profiles: &Vec<Profile>)
        ensures
            final(self)@ == following(old(self)@, models(profiles@)),
    {
        if let Some(id) = self.profile {
            let p = find_profile(profiles, id);
            if p < profiles.len() {
                // Edited name and color show up on the open tab right away.
                assert(models(profiles@)[p as int] == profiles@[p as int]@);
                self.name = clone_opt(&profiles[p].tab.name);
                self.color = profiles[p].tab.color;
            } else {
                self.profile = None;
            }
        }
    }
}

/// The closed tabs whose profile exists.
pub fn keep_closed(closed: &Vec<SessionTab>, config: &Config) -> (r: Vec<SessionTab>)
    ensures
        models(r@) == models(closed@).filter(of_profiles(config@.profiles)),
{
    let ghost all = models(closed@);
    let ghost p = of_profiles(config@.profiles);
    let mut r: Vec<SessionTab> = Vec::new();
    let mut i: usize = 0;
    proof {
        reveal(Seq::filter);
        assert(models(r@) =~= all.take(0).filter(p));
    }
    while i < closed.len()
        invariant
            i <= closed@.len(),
            all == models(closed@),
            p == of_profiles(config@.profiles),
            models(r@) == all.take(i as int).filter(p),
        decreases closed.len() - i,
    {
        proof {
            reveal(Seq::filter);
            assert(all.take(i + 1).drop_last() =~= all.take(i as int));
        }
        let known = match closed[i].profile {
            Some(id) => find_profile(&config.profiles, id) < config.profiles.len(),
            None => false,
        };
        if known {
            let ghost before = r@;
            let c = closed[i].duplicate();
            r.push(c);
            proof {
                lemma_push(before, c);
            }
        }
        i += 1;
    }
    assert(all.take(i as int) =~= all);
    r
}

impl App {
    /// Remembers the window geometry, where it is known.
    pub fn track_window(
        &mut self,
        outer: Option<(Real, Real)>,
        inner: Option<(Real, Real)>,
        maximized: bool,
        fullscreen: bool,
    )
        ensures
            final(self)@ == match (outer, inner) {
                (Some(o), Some(i)) => AppModel {
                    window: Some(geometry(old(self)@.window, o, i, maximized, fullscreen)),
                    ..old(self)@
                },
                _ => old(self)@,
            },
            final(self)@ == old(self)@.tracking(outer, inner, maximized, fullscreen),
    {
        let (outer, inner) = match (outer, inner) {
            (Some(o), Some(i)) => (o, i),
            _ => {
                return;
            },
        };
        let zero = Real { bits: 0 };
        let mut w = match self.window {
            Some(w) => w,
            None => WindowState {
                x: zero,
                y: zero,
                width: zero,
                height: zero,
                maximized,
                fullscreen,
            },
        };
        if !maximized && !fullscreen {
            w.x = outer.0;
            w.y = outer.1;
            w.width = inner.0;
            w.height = inner.1;
        }
        w.maximized = maximized;
        w.fullscreen = fullscreen;
        self.window = Some(w);
    }

    fn sync_tab(&mut self, i: usize, seen: &Vec<(PaneId, String)>) -> (tab: SessionTab)
        requires
            i < old(self).tabs@.len(),
        ensures
            ({
                let m = old(self)@;
                let t = named_by_host(m.tabs[i as int], m.config.ssh).seeing(seen_views(seen@));
                let live = with_live_profile(t, m.config.profiles);
                &&& tab@ == (SessionTabModel {
                    profile: live.profile,
                    ssh: t.ssh,
                    tab: t.snapshot(),
                })
                &&& final(self)@ == (AppModel {
                    tabs: m.tabs.update(i as int, live),
                    config: ConfigModel {
                        profiles: with_state(m.config.profiles, t.profile, t.snapshot()),
                        ..m.config
                    },
                    ..m
                })
            }),
    {
        let ghost before = self.tabs@;
        self.tabs[i].follow_host(&self.config.ssh);
        let state = self.tabs[i].state(seen);
        self.tabs[i].check_profile(&self.config.profiles);
        let ghost after = self.tabs@[i as int];
        proof {
            assert(self.tabs@ =~= before.update(i as int, after));
            lemma_update(before, i as int, after);
        }
        let copy = state.duplicate();
        let profile = self.tabs[i].profile;
        self.config.update_profile(profile, copy);
        proof {
            lemma_no_profile(
                old(self)@.config.profiles,
                named_by_host(old(self)@.tabs[i as int], old(self)@.config.ssh).profile,
                state@,
            );
        }
        SessionTab { profile, ssh: self.tabs[i].ssh, tab: state }
    }

    /// Pushes open tabs into their profiles; `seen` are the directories that the
    /// terminals of each tab are in. Gives the session to save.
    pub fn sync(&mut self, seen: &Vec<Vec<(PaneId, String)>>) -> (session: Session)
        requires
            seen@.len() == old(self).tabs@.len(),
        ensures
            final(self)@ == old(self)@.syncing(all_seen(seen@)),
            session@ == old(self)@.session(all_seen(seen@)),
    {
        let ghost m = self@;
        let ghost views = all_seen(seen@);
        let mut tabs: Vec<SessionTab> = Vec::new();
        let mut i: usize = 0;
        proof {
            assert(models(tabs@) =~= Seq::empty());
            assert(m.tabs.take(0) =~= Seq::empty());
            assert(m.tabs.skip(0) =~= m.tabs);
        }
        while i < self.tabs.len()
            invariant
                i <= self.tabs@.len(),
                self.tabs@.len() == m.tabs.len(),
                seen@.len() == m.tabs.len(),
                views == all_seen(seen@),
                models(tabs@) == synced(m.config, m.tabs, views, i as nat).session,
                self@ == (AppModel {
                    tabs: synced(m.config, m.tabs, views, i as nat).tabs + m.tabs.skip(i as int),
                    config: ConfigModel {
                        profiles: synced(m.config, m.tabs, views, i as nat).profiles,
                        ..m.config
                    },
                    ..m
                }),
                synced(m.config, m.tabs, views, i as nat).tabs.len() == i,
            decreases self.tabs.len() - i,
        {
            let ghost rest = synced(m.config, m.tabs, views, i as nat);
            proof {
                lemma_synced_ids(m.config, m.tabs, views, i as nat);
                assert(self@.tabs[i as int] == m.tabs[i as int]);
                assert(views[i as int] == seen_views(seen@[i as int]@));
            }
            let tab = self.sync_tab(i, &seen[i]);
            let ghost listed = tabs@;
            tabs.push(tab);
            proof {
                lemma_push(listed, tab);
                let after = synced(m.config, m.tabs, views, (i + 1) as nat);
                assert(self@.tabs =~= after.tabs + m.tabs.skip(i + 1));
            }
            i += 1;
        }
        assert(m.tabs.skip(i as int) =~= Seq::empty());
        assert(self@.tabs =~= synced(m.config, m.tabs, views, i as nat).tabs);
        Session {
            tabs,
            active: self.active,
            closed: duplicate_all(&self.closed),
            window: self.window,
        }
    }

    /// Whether a session is to be written: it changed, and nothing keeps it from being saved.
    pub fn session_due(&self, session: &Session) -> (r: bool)
        ensures
            r == (!self.read_only && !self.session_frozen && !Session::equal(
                session@,
                self@.saved_session,
            )),
            r == self@.session_to_write(session@),
    {
        !self.read_only && !session.same(&self.saved_session) && !self.session_frozen
    }

    /// Notes that a session was written, or why it could not be.
    pub fn session_written(&mut self, session: Session, result: Result<(), String>, t: &Strings)
        ensures
            final(self)@ == match result {
                Ok(_) => AppModel { saved_session: session@, ..old(self)@ },
                Err(e) => AppModel {
                    error: Some(caused(t.session_save_failed@, e@)),
                    ..old(self)@
                },
            },
            final(self)@ == old(self)@.session_saved(session@, failure(result), *t),
    {
        match result {
            Ok(_) => {
                self.saved_session = session;
            },
            Err(e) => {
                self.error = Some(with_cause(t.session_save_failed, e.as_str()));
            },
        }
    }

    /// Whether the config is to be written: it changed, and the file may be overwritten.
    pub fn config_due(&self) -> (r: bool)
        ensures
            r == (self.config_writable && !Config::equal(self@.config, self@.saved_config)),
            r == self@.config_to_write(),
    {
        self.config_writable && !self.config.same(&self.saved_config)
    }

    /// Notes that the config was written, or why it could not be: not again every
    /// second then, the next outside edit of the file retries.
    pub fn config_written(&mut self, result: Result<(), String>, t: &Strings)
        ensures
            final(self)@ == match result {
                Ok(_) => AppModel { saved_config: old(self)@.config, ..old(self)@ },
                Err(e) => AppModel {
                    error: Some(caused(t.config_save_failed@, e@)),
                    config_writable: false,
                    ..old(self)@
                },
            },
            final(self)@ == old(self)@.config_saved(failure(result), *t),
    {
        match result {
            Ok(_) => {
                self.saved_config = self.config.duplicate();
            },
            Err(e) => {
                self.error = Some(with_cause(t.config_save_failed, e.as_str()));
                self.config_writable = false;
            },
        }
    }

    /// Switches to a new config (from the editor or the file), keeping open tabs consistent with it.
    /// Tells whether the theme is another.
    pub fn apply_config(&mut self, config: Config) -> (theme: bool)
        ensures
            final(self)@ == old(self)@.configured(config@),
            theme == (config@.settings.theme != old(self)@.config.settings.theme),
            theme == theme_changes(old(self)@.config, config@),
    {
        let ghost m = self@;
        let ghost profiles = config@.profiles;
        let theme = !same_str(
            config.settings.theme.as_str(),
            self.config.settings.theme.as_str(),
        );
        let mut i: usize = 0;
        while i < self.tabs.len()
            invariant
                i <= self.tabs@.len(),
                self.tabs@.len() == m.tabs.len(),
                profiles == config@.profiles,
                forall|j: int|
                    0 <= j < i ==> (#[trigger] self.tabs@[j])@ == following(m.tabs[j], profiles),
                forall|j: int| i <= j < m.tabs.len() ==> (#[trigger] self.tabs@[j])@ == m.tabs[j],
                self@ == (AppModel { tabs: self@.tabs, ..m }),
            decreases self.tabs.len() - i,
        {
            self.tabs[i].follow_profile(&config.profiles);
            i += 1;
        }
        self.closed = keep_closed(&self.closed, &config);
        self.config = config;
        self.error = None;
        assert(self@.tabs =~= m.tabs.map_values(|t: TabModel| following(t, profiles)));
        theme
    }

    /// Adopts a config read from the file, already arranged, or notes why it could
    /// not be read: the file being edited isn't overwritten then.
    pub fn adopt_config(&mut self, read: Result<Config, String>, t: &Strings) -> (theme: bool)
        ensures
            match read {
                Ok(config) => {
                    &&& final(self)@ == old(self)@.reloaded(config@)
                    &&& theme == (config@.settings.theme != old(self)@.config.settings.theme)
                },
                Err(e) => {
                    &&& final(self)@ == (AppModel {
                        config_writable: false,
                        error: Some(caused(t.config_not_loaded@, e@)),
                        ..old(self)@
                    })
                    &&& final(self)@ == old(self)@.config_lost(e@, *t)
                    &&& !theme
                },
            },
            read matches Ok(config) ==> theme == theme_changes(old(self)@.config, config@),
    {
        match read {
            Ok(config) => {
                self.config_writable = !self.read_only;
                self.saved_config = config.duplicate();
                self.apply_config(config)
            },
            Err(e) => {
                self.config_writable = false;
                self.error = Some(with_cause(t.config_not_loaded, e.as_str()));
                false
            },
        }
    }

    /// Picks up changes made to config.json in another editor: what was read is
    /// arranged, then adopted.
    pub fn reload_config(&mut self, read: Result<Config, String>, t: &Strings) -> (theme: bool)
        ensures
            match read {
                Ok(config) => {
                    &&& exists|fresh: Seq<u128>|
                        fresh.len() == config@.ssh.len() && final(self)@ == old(self)@.reloaded(
                            #[trigger] normalized(config@, fresh),
                        ) && forall|i: int| 0 <= i < fresh.len() ==> is_random(#[trigger] fresh[i])
                    &&& theme == (config@.settings.theme != old(self)@.config.settings.theme)
                },
                Err(e) => {
                    &&& final(self)@ == (AppModel {
                        config_writable: false,
                        error: Some(caused(t.config_not_loaded@, e@)),
                        ..old(self)@
                    })
                    &&& final(self)@ == old(self)@.config_lost(e@, *t)
                    &&& !theme
                },
            },
            read matches Ok(config) ==> theme == theme_changes(old(self)@.config, config@),
    {
        match read {
            Ok(mut config) => {
                let ghost c = config@;
                config.normalize();
                let theme = self.adopt_config(Ok(config), t);
                theme
            },
            Err(e) => self.adopt_config(Err(e), t),
        }
    }
}

/// Whether a file was edited since it was last read or written.
pub fn edited(modified: Option<u64>, known: Option<u64>) -> (r: bool)
    ensures
        r == (modified is Some && modified != known),
        r == changed_since(modified, known),
{
    modified.is_some() && modified != known
}

/// After a sync, the profile of an open tab holds what the session holds of it: a
/// profile is always up to date.
pub proof fn law_sync_updates_profiles(
    m: AppModel,
    seen: Seq<Seq<(PaneId, Seq<char>)>>,
    i: int,
    id: u128,
)
    requires
        crate::app_laws::open_once(m),
        0 <= i < m.tabs.len(),
        m.tabs[i].profile == Some(id),
        has_profile(m.config.profiles, id),
    ensures
        ({
            let s = m.syncing(seen);
            s.config.profiles[profile_place(s.config.profiles, id)].tab == m.session(seen).tabs[i].tab
        }),
        m.syncing(seen).tabs[i].profile == Some(id),
{
    lemma_synced_ids(m.config, m.tabs, seen, m.tabs.len());
    lemma_synced_profile(m, seen, m.tabs.len(), i, id);
}

proof fn lemma_synced_profile(
    m: AppModel,
    seen: Seq<Seq<(PaneId, Seq<char>)>>,
    n: nat,
    i: int,
    id: u128,
)
    requires
        crate::app_laws::open_once(m),
        0 <= i < n <= m.tabs.len(),
        m.tabs[i].profile == Some(id),
        has_profile(m.config.profiles, id),
    ensures
        ({
            let s = synced(m.config, m.tabs, seen, n);
            &&& s.profiles[profile_place(s.profiles, id)].tab == s.session[i].tab
            &&& s.tabs[i].profile == Some(id)
        }),
        synced(m.config, m.tabs, seen, n).session.len() == n,
        synced(m.config, m.tabs, seen, n).tabs.len() == n,
    decreases n,
{
    lemma_synced_ids(m.config, m.tabs, seen, (n - 1) as nat);
    lemma_synced_ids(m.config, m.tabs, seen, n);
    lemma_synced_len(m, seen, (n - 1) as nat);
    let rest = synced(m.config, m.tabs, seen, (n - 1) as nat);
    let t = named_by_host(m.tabs[n - 1], m.config.ssh).seeing(seen[n - 1]);
    lemma_place(profile_ids(m.config.profiles), id);
    if i < n - 1 {
        lemma_synced_profile(m, seen, (n - 1) as nat, i, id);
        if let Some(other) = t.profile {
            assert(m.tabs[i].profile != m.tabs[n - 1].profile);
            lemma_place(profile_ids(m.config.profiles), other);
        }
    }
}

proof fn lemma_synced_len(m: AppModel, seen: Seq<Seq<(PaneId, Seq<char>)>>, n: nat)
    ensures
        synced(m.config, m.tabs, seen, n).session.len() == n,
        synced(m.config, m.tabs, seen, n).tabs.len() == n,
    decreases n,
{
    if n > 0 {
        lemma_synced_len(m, seen, (n - 1) as nat);
    }
}

/// Whether another config brings another theme.
pub open spec fn theme_changes(before: ConfigModel, after: ConfigModel) -> bool {
    after.settings.theme != before.settings.theme
}

} // verus!
