//! The terminals of tabs: starting and restarting them, what happens when they end,
//! the histories that are still of use, and the file managers of SSH tabs.

use crate::app::{App, AppModel};
use crate::config::{ConfigModel, SessionTabModel, SshHostModel};
use crate::files::{FileManager, FileManagerModel};
use crate::find::{find_host, has_host, host_place};
use crate::ids::is_random;
use crate::model::lemma_update;
use crate::pane::PaneId;
use crate::session::all_seen;
use crate::shortcut::Platform;
use crate::tab::{entry, less_pane, seen_views, Tab, TabModel};
use crate::text::{clone_opt, opt_view};
use vstd::prelude::*;

verus! {

broadcast use vstd::std_specs::hash::group_hash_axioms;

/// A terminal to start.
#[derive(Debug)]
pub struct Start {
    pub pane: PaneId,
    /// Directory to start in, if one is known.
    pub cwd: Option<String>,
    /// Its command history.
    pub history: u128,
}

/// Whether the terminals to start are those of some panes, in order.
pub open spec fn starts_of(starts: Seq<Start>, panes: Seq<PaneId>, cwds: Map<PaneId, Seq<char>>) -> bool {
    &&& starts.len() == panes.len()
    &&& forall|i: int|
        0 <= i < starts.len() ==> {
            &&& (#[trigger] starts[i]).pane == panes[i]
            &&& opt_view(starts[i].cwd) == entry(cwds, panes[i])
        }
}

/// Whether histories were given to panes that had none: the others keep theirs.
pub open spec fn given(
    before: Map<PaneId, u128>,
    after: Map<PaneId, u128>,
    panes: Seq<PaneId>,
) -> bool {
    &&& forall|p: PaneId|
        #[trigger] after.contains_key(p) == (before.contains_key(p) || panes.contains(p))
    &&& forall|p: PaneId| #[trigger] before.contains_key(p) ==> after[p] == before[p]
    &&& forall|p: PaneId|
        #[trigger] after.contains_key(p) && !before.contains_key(p) ==> is_random(after[p])
}

impl Tab {
    /// The terminals of the panes that have not run yet, in the directories they
    /// were last in; they wait no more.
    pub fn take_pending(&mut self) -> (starts: Vec<Start>)
        ensures
            starts_of(starts@, old(self)@.pending, old(self)@.cwds),
            given(old(self)@.histories, final(self)@.histories, old(self)@.pending),
            forall|i: int|
                0 <= i < starts@.len() ==> final(self)@.histories[(#[trigger] starts@[i]).pane]
                    == starts@[i].history,
            final(self)@ == (TabModel {
                pending: Seq::empty(),
                histories: final(self)@.histories,
                ..old(self)@
            }),
    {
        let mut panes: Vec<PaneId> = Vec::new();
        std::mem::swap(&mut panes, &mut self.pending);
        let starts = self.starts(&panes, true);
        starts
    }

    /// The terminals of panes, each with its history, which is given on first use.
    pub fn starts(&mut self, panes: &Vec<PaneId>, there: bool) -> (starts: Vec<Start>)
        ensures
            starts_of(
                starts@,
                panes@,
                if there {
                    old(self)@.cwds
                } else {
                    Map::empty()
                },
            ),
            given(old(self)@.histories, final(self)@.histories, panes@),
            forall|i: int|
                0 <= i < starts@.len() ==> final(self)@.histories[(#[trigger] starts@[i]).pane]
                    == starts@[i].history,
            final(self)@ == (TabModel { histories: final(self)@.histories, ..old(self)@ }),
    {
        let ghost before = self@;
        let ghost known = if there {
            before.cwds
        } else {
            Map::empty()
        };
        let mut starts: Vec<Start> = Vec::new();
        let mut i: usize = 0;
        while i < panes.len()
            invariant
                i <= panes@.len(),
                known == if there {
                    before.cwds
                } else {
                    Map::empty()
                },
                starts_of(starts@, panes@.take(i as int), known),
                given(before.histories, self@.histories, panes@.take(i as int)),
                forall|j: int|
                    0 <= j < starts@.len() ==> self@.histories[(#[trigger] starts@[j]).pane]
                        == starts@[j].history,
                self@ == (TabModel { histories: self@.histories, ..before }),
            decreases panes.len() - i,
        {
            let pane = panes[i];
            let ghost prior = self@.histories;
            let ghost listed = starts@;
            let ghost first = panes@.take(i as int);
            let ghost next = panes@.take(i + 1);
            let history = self.history_id(pane);
            let cwd = if there {
                match self.cwds.get(&pane) {
                    Some(d) => Some(d.clone()),
                    None => None,
                }
            } else {
                None
            };
            starts.push(Start { pane, cwd, history });
            proof {
                assert(next =~= first.push(pane));
                assert forall|p: PaneId| #[trigger]
                    self@.histories.contains_key(p) == (before.histories.contains_key(p)
                        || next.contains(p)) by {
                    assert(prior.contains_key(p) == (before.histories.contains_key(p)
                        || first.contains(p)));
                    if p == pane {
                        assert(next[i as int] == p);
                    }
                    if first.contains(p) {
                        let k = choose|k: int| 0 <= k < first.len() && first[k] == p;
                        assert(next[k] == p);
                    }
                    if next.contains(p) && p != pane {
                        let k = choose|k: int| 0 <= k < next.len() && next[k] == p;
                        assert(first[k] == p);
                    }
                }
                assert forall|j: int| 0 <= j < starts@.len() implies self@.histories[(
                #[trigger] starts@[j]).pane] == starts@[j].history by {
                    if j < i {
                        assert(starts@[j] == listed[j]);
                        assert(first[j] == listed[j].pane);
                        assert(prior.contains_key(listed[j].pane));
                    }
                }
            }
            i += 1;
        }
        assert(panes@.take(i as int) =~= panes@);
        starts
    }

    /// Notes the terminal of a pane that was started for the first time.
    pub fn begun(&mut self, id: PaneId)
        ensures
            final(self)@ == (TabModel { running: old(self)@.running.insert(id), ..old(self)@ }),
            final(self)@ == old(self)@.with_running(id),
    {
        self.running.insert(id);
    }

    /// Notes that the connection of an SSH pane ended.
    pub fn ended(&mut self, id: PaneId)
        ensures
            final(self)@ == (TabModel { dead: old(self)@.dead.insert(id), ..old(self)@ }),
            final(self)@ == old(self)@.with_dead(id),
    {
        self.dead.insert(id);
    }

    /// Shows the file manager, created where there is none, or the terminals again.
    pub fn set_files(&mut self, show: bool, fresh: FileManager)
        ensures
            final(self)@ == (TabModel {
                show_files: show,
                files: if show && old(self)@.files is None {
                    Some(fresh@)
                } else {
                    old(self)@.files
                },
                ..old(self)@
            }),
            final(self)@ == old(self)@.with_files(show, fresh@),
    {
        self.show_files = show;
        if show && self.files.is_none() {
            self.files = Some(fresh);
        }
    }
}

impl AppModel {
    /// The host of a tab, if it is an SSH tab whose host exists.
    pub open spec fn tab_host(self, index: usize) -> Option<int> {
        if index < self.tabs.len() {
            match self.tabs[index as int].ssh {
                Some(id) => if has_host(self.config.ssh, id) {
                    Some(host_place(self.config.ssh, id))
                } else {
                    None
                },
                None => None,
            }
        } else {
            None
        }
    }

    /// With a pane whose program ended: one of an SSH tab stays, to show why; another
    /// closes.
    pub open spec fn exiting(
        self,
        pane: PaneId,
        index: usize,
        seen: Seq<(PaneId, Seq<char>)>,
    ) -> AppModel {
        if index < self.tabs.len() {
            if self.tabs[index as int].ssh is Some {
                AppModel {
                    tabs: self.tabs.update(
                        index as int,
                        TabModel {
                            dead: self.tabs[index as int].dead.insert(pane),
                            ..self.tabs[index as int]
                        },
                    ),
                    ..self
                }
            } else {
                self.closing_pane(index, pane, seen)
            }
        } else {
            self
        }
    }

    /// With panes whose programs ended, from the last of the list to the first.
    pub open spec fn exiting_all(
        self,
        exited: Seq<(PaneId, usize)>,
        seen: Seq<Seq<(PaneId, Seq<char>)>>,
    ) -> AppModel
        decreases exited.len(),
    {
        if exited.len() == 0 {
            self
        } else {
            let (pane, index) = exited.last();
            self.exiting(pane, index, seen[index as int]).exiting_all(exited.drop_last(), seen)
        }
    }

    /// Whether a history is still of use: that of an open pane, or of a pane of a
    /// profile or of a recently closed tab.
    pub open spec fn keeps(self, h: u128) -> bool {
        ||| exists|i: int| 0 <= i < self.tabs.len() && (#[trigger] self.tabs[i]).histories.contains_value(h)
        ||| exists|i: int|
            0 <= i < self.config.profiles.len() && (
            #[trigger] self.config.profiles[i]).tab.layout.history_ids().contains(h)
        ||| exists|i: int|
            0 <= i < self.closed.len() && (#[trigger] self.closed[i]).tab.layout.history_ids().contains(h)
    }

    /// With the file manager of an SSH tab shown (connected the first time), or its
    /// terminals again.
    pub open spec fn showing_files(
        self,
        index: usize,
        show: bool,
        local: Seq<char>,
        error: Option<Seq<char>>,
        platform: Platform,
    ) -> AppModel {
        match self.tab_host(index) {
            None => self,
            Some(h) => {
                let tab = self.tabs[index as int];
                let host = self.config.ssh[h];
                AppModel {
                    tabs: self.tabs.update(
                        index as int,
                        TabModel {
                            show_files: show,
                            files: if show && tab.files is None {
                                Some(
                                    FileManagerModel::fresh(
                                        host.id,
                                        local,
                                        host.sftp_remote,
                                        platform,
                                    ).opened(error),
                                )
                            } else {
                                tab.files
                            },
                            ..tab
                        },
                    ),
                    focus_terminal: self.focus_terminal || !show,
                    ..self
                }
            },
        }
    }
}

/// The hosts, with the folders that the file managers of the first tabs show.
pub open spec fn with_folders(ssh: Seq<SshHostModel>, tabs: Seq<TabModel>, n: nat) -> Seq<SshHostModel>
    decreases n,
{
    if n == 0 {
        ssh
    } else {
        let rest = with_folders(ssh, tabs, (n - 1) as nat);
        match tabs[n - 1].files {
            None => rest,
            Some(f) => {
                let i = host_place(rest, f.host);
                if i < rest.len() {
                    rest.update(
                        i,
                        SshHostModel {
                            sftp_local: Some(f.local.path),
                            sftp_remote: if f.remote.path.len() == 0 {
                                rest[i].sftp_remote
                            } else {
                                Some(f.remote.path)
                            },
                            ..rest[i]
                        },
                    )
                } else {
                    rest
                }
            },
        }
    }
}

impl App {
    /// The host that a new pane of a tab connects to; none for a tab of the user's shell.
    pub fn launch_for(&self, index: usize) -> (r: Option<usize>)
        ensures
            match r {
                Some(h) => self@.tab_host(index) == Some(h as int) && h < self.config.ssh@.len(),
                None => self@.tab_host(index) is None,
            },
    {
        if index >= self.tabs.len() {
            return None;
        }
        assert(self@.tabs[index as int] == self.tabs@[index as int]@);
        match self.tabs[index].ssh {
            Some(id) => {
                let h = find_host(&self.config.ssh, id);
                if h < self.config.ssh.len() {
                    Some(h)
                } else {
                    None
                }
            },
            None => None,
        }
    }

    /// The terminals of a tab's panes that have not run yet.
    pub fn start_pending(&mut self, index: usize) -> (starts: Vec<Start>)
        ensures
            index >= old(self)@.tabs.len() ==> starts@.len() == 0 && final(self)@ == old(self)@,
            index < old(self)@.tabs.len() ==> {
                let tab = old(self)@.tabs[index as int];
                let after = final(self)@.tabs[index as int];
                &&& starts_of(starts@, tab.pending, tab.cwds)
                &&& given(tab.histories, after.histories, tab.pending)
                &&& forall|i: int|
                    0 <= i < starts@.len() ==> after.histories[(#[trigger] starts@[i]).pane]
                        == starts@[i].history
                &&& final(self)@ == (AppModel {
                    tabs: old(self)@.tabs.update(
                        index as int,
                        TabModel {
                            pending: Seq::empty(),
                            histories: after.histories,
                            ..tab
                        },
                    ),
                    ..old(self)@
                })
            },
    {
        if index >= self.tabs.len() {
            return Vec::new();
        }
        let ghost before = self.tabs@;
        assert(self@.tabs[index as int] == before[index as int]@);
        let starts = self.tabs[index].take_pending();
        proof {
            assert(self.tabs@ =~= before.update(index as int, self.tabs@[index as int]));
            lemma_update(before, index as int, self.tabs@[index as int]);
        }
        starts
    }

    /// Notes that the terminal of a pane was started, or why it could not be.
    pub fn pane_started(&mut self, index: usize, pane: PaneId, result: Result<(), String>)
        requires
            index < old(self).tabs@.len(),
        ensures
            final(self)@ == match result {
                Ok(_) => AppModel {
                    tabs: old(self)@.tabs.update(
                        index as int,
                        TabModel {
                            running: old(self)@.tabs[index as int].running.insert(pane),
                            ..old(self)@.tabs[index as int]
                        },
                    ),
                    ..old(self)@
                },
                Err(e) => AppModel { error: Some(e@), ..old(self)@ },
            },
            final(self)@ == old(self)@.pane_begun(index, pane, crate::session::failure(result)),
    {
        match result {
            Ok(_) => {
                let ghost before = self.tabs@;
                self.tabs[index].begun(pane);
                proof {
                    assert(self.tabs@ =~= before.update(index as int, self.tabs@[index as int]));
                    lemma_update(before, index as int, self.tabs@[index as int]);
                }
            },
            Err(e) => {
                self.error = Some(e);
            },
        }
    }

    /// The terminals to start again in a tab (a new ssh session replaces the old or ended one).
    pub fn reconnect(&mut self, index: usize, panes: &Vec<PaneId>) -> (starts: Vec<Start>)
        ensures
            index >= old(self)@.tabs.len() ==> starts@.len() == 0 && final(self)@ == old(self)@,
            index < old(self)@.tabs.len() ==> {
                let tab = old(self)@.tabs[index as int];
                let after = final(self)@.tabs[index as int];
                &&& starts_of(starts@, panes@, Map::empty())
                &&& given(tab.histories, after.histories, panes@)
                &&& forall|i: int|
                    0 <= i < starts@.len() ==> after.histories[(#[trigger] starts@[i]).pane]
                        == starts@[i].history
                &&& final(self)@ == (AppModel {
                    tabs: old(self)@.tabs.update(
                        index as int,
                        TabModel { histories: after.histories, ..tab },
                    ),
                    focus_terminal: true,
                    ..old(self)@
                })
            },
    {
        if index >= self.tabs.len() {
            return Vec::new();
        }
        let ghost before = self.tabs@;
        assert(self@.tabs[index as int] == before[index as int]@);
        let starts = self.tabs[index].starts(panes, false);
        proof {
            assert(self.tabs@ =~= before.update(index as int, self.tabs@[index as int]));
            lemma_update(before, index as int, self.tabs@[index as int]);
        }
        self.focus_terminal = true;
        starts
    }

    /// Notes that the terminal of a pane was started again, or why it could not be.
    pub fn pane_restarted(&mut self, index: usize, pane: PaneId, result: Result<(), String>)
        requires
            index < old(self).tabs@.len(),
        ensures
            final(self)@ == match result {
                Ok(_) => AppModel {
                    tabs: old(self)@.tabs.update(
                        index as int,
                        TabModel {
                            running: old(self)@.tabs[index as int].running.insert(pane),
                            dead: old(self)@.tabs[index as int].dead.remove(pane),
                            pending: less_pane(old(self)@.tabs[index as int].pending, pane),
                            ..old(self)@.tabs[index as int]
                        },
                    ),
                    ..old(self)@
                },
                Err(e) => AppModel { error: Some(e@), ..old(self)@ },
            },
            final(self)@ == old(self)@.pane_again(index, pane, crate::session::failure(result)),
    {
        match result {
            Ok(_) => {
                let ghost before = self.tabs@;
                self.tabs[index].started(pane);
                proof {
                    assert(self.tabs@ =~= before.update(index as int, self.tabs@[index as int]));
                    lemma_update(before, index as int, self.tabs@[index as int]);
                }
            },
            Err(e) => {
                self.error = Some(e);
            },
        }
    }

    fn pane_exited(&mut self, pane: PaneId, index: usize, seen: &Vec<(PaneId, String)>)
        ensures
            final(self)@ == old(self)@.exiting(pane, index, seen_views(seen@)),
    {
        if index >= self.tabs.len() {
            return;
        }
        let ghost before = self.tabs@;
        assert(self@.tabs[index as int] == before[index as int]@);
        if self.tabs[index].ssh.is_some() {
            self.tabs[index].ended(pane);
            proof {
                assert(self.tabs@ =~= before.update(index as int, self.tabs@[index as int]));
                lemma_update(before, index as int, self.tabs@[index as int]);
            }
        } else {
            self.close_pane(index, pane, seen);
        }
    }

    /// Panes whose shell has exited close by themselves. SSH panes stay, to show why the connection ended.
    /// The last of the list goes first, so that earlier indices stay valid if a tab closes.
    pub fn panes_exited(
        &mut self,
        exited: &Vec<(PaneId, usize)>,
        seen: &Vec<Vec<(PaneId, String)>>,
    )
        requires
            forall|i: int| 0 <= i < exited@.len() ==> (#[trigger] exited@[i]).1 < seen@.len(),
        ensures
            final(self)@ == old(self)@.exiting_all(exited@, all_seen(seen@)),
    {
        let ghost m = self@;
        let ghost s = all_seen(seen@);
        let mut n: usize = exited.len();
        assert(exited@.take(n as int) =~= exited@);
        while n > 0
            invariant
                n <= exited@.len(),
                s == all_seen(seen@),
                forall|i: int| 0 <= i < exited@.len() ==> (#[trigger] exited@[i]).1 < seen@.len(),
                self@.exiting_all(exited@.take(n as int), s) == m.exiting_all(exited@, s),
            decreases n,
        {
            let ghost before = exited@.take(n as int);
            n -= 1;
            let (pane, index) = exited[n];
            proof {
                assert(before.drop_last() =~= exited@.take(n as int));
                assert(before.last() == exited@[n as int]);
                assert(s[index as int] == seen_views(seen@[index as int]@));
            }
            self.pane_exited(pane, index, &seen[index]);
        }
        assert(exited@.take(0) =~= Seq::empty());
    }

    /// The command histories that are still of use.
    pub fn kept_histories(&self) -> (r: Vec<u128>)
        ensures
            forall|h: u128| #[trigger] r@.contains(h) == self@.keeps(h),
    {
        let mut r: Vec<u128> = Vec::new();
        self.tab_histories(&mut r);
        let ghost tabs = r@;
        let mut i: usize = 0;
        while i < self.config.profiles.len()
            invariant
                i <= self.config.profiles@.len(),
                forall|h: u128| #[trigger]
                    r@.contains(h) == (tabs.contains(h) || exists|j: int|
                        0 <= j < i && (
                        #[trigger] self@.config.profiles[j]).tab.layout.history_ids().contains(h)),
            decreases self.config.profiles.len() - i,
        {
            let ghost before = r@;
            let ghost ids = self@.config.profiles[i as int].tab.layout.history_ids();
            assert(self@.config.profiles[i as int] == self.config.profiles@[i as int]@);
            self.config.profiles[i].tab.layout.histories(&mut r);
            proof {
                assert forall|h: u128| #[trigger] r@.contains(h) == (before.contains(h) || ids.contains(h)) by {
                    lemma_contains_add(before, ids, h);
                }
            }
            i += 1;
        }
        let ghost known = r@;
        i = 0;
        while i < self.closed.len()
            invariant
                i <= self.closed@.len(),
                forall|h: u128| #[trigger]
                    r@.contains(h) == (known.contains(h) || exists|j: int|
                        0 <= j < i && (#[trigger] self@.closed[j]).tab.layout.history_ids().contains(
                            h,
                        )),
            decreases self.closed.len() - i,
        {
            let ghost before = r@;
            let ghost ids = self@.closed[i as int].tab.layout.history_ids();
            assert(self@.closed[i as int] == self.closed@[i as int]@);
            self.closed[i].tab.layout.histories(&mut r);
            proof {
                assert forall|h: u128| #[trigger] r@.contains(h) == (before.contains(h) || ids.contains(h)) by {
                    lemma_contains_add(before, ids, h);
                }
            }
            i += 1;
        }
        r
    }

    fn tab_histories(&self, r: &mut Vec<u128>)
        requires
            old(r)@.len() == 0,
        ensures
            forall|h: u128| #[trigger]
                final(r)@.contains(h) == exists|i: int|
                    0 <= i < self@.tabs.len() && (#[trigger] self@.tabs[i]).histories.contains_value(h),
    {
        let mut i: usize = 0;
        while i < self.tabs.len()
            invariant
                i <= self.tabs@.len(),
                forall|h: u128| #[trigger]
                    r@.contains(h) == exists|j: int|
                        0 <= j < i && (#[trigger] self@.tabs[j]).histories.contains_value(h),
            decreases self.tabs.len() - i,
        {
            let ghost before = r@;
            assert(self@.tabs[i as int] == self.tabs@[i as int]@);
            self.tabs[i].add_histories(r);
            i += 1;
        }
    }

    /// Whether showing the file manager of a tab opens a session.
    pub fn opens_files(&self, index: usize, show: bool) -> (r: bool)
        ensures
            r == (show && self@.tab_host(index) is Some && self@.tabs[index as int].files is None),
            r == self@.needs_files(index, show),
    {
        if self.launch_for(index).is_none() {
            return false;
        }
        assert(self@.tabs[index as int] == self.tabs@[index as int]@);
        show && self.tabs[index].files.is_none()
    }

    /// Shows the file manager of an SSH tab (connecting it the first time), or its terminal again.
    /// `local` is the folder it starts in, and `opened` tells whether a session was opened for it.
    pub fn toggle_files(
        &mut self,
        index: usize,
        show: bool,
        local: String,
        opened: Result<(), String>,
        platform: Platform,
    )
        ensures
            final(self)@ == old(self)@.showing_files(
                index,
                show,
                local@,
                match opened {
                    Ok(_) => None,
                    Err(e) => Some(e@),
                },
                platform,
            ),
    {
        let h = match self.launch_for(index) {
            Some(h) => h,
            None => {
                return;
            },
        };
        let ghost m = self@;
        let ghost before = self.tabs@;
        proof {
            assert(m.tabs[index as int] == before[index as int]@);
            assert(m.config.ssh[h as int] == self.config.ssh@[h as int]@);
        }
        let mut fresh = FileManager::new(
            self.config.ssh[h].id,
            local,
            clone_opt(&self.config.ssh[h].sftp_remote),
            platform,
        );
        fresh.connect(opened);
        self.tabs[index].set_files(show, fresh);
        proof {
            assert(self.tabs@ =~= before.update(index as int, self.tabs@[index as int]));
            lemma_update(before, index as int, self.tabs@[index as int]);
        }
        if !show {
            self.focus_terminal = true;
        }
        assert(self@ =~= m.showing_files(
            index,
            show,
            local@,
            match opened {
                Ok(_) => None,
                Err(e) => Some(e@),
            },
            platform,
        ));
    }

    /// Remembers each host's folders, as its file manager shows them.
    pub fn remember_folders(&mut self)
        ensures
            final(self)@ == (AppModel {
                config: ConfigModel {
                    ssh: with_folders(
                        old(self)@.config.ssh,
                        old(self)@.tabs,
                        old(self)@.tabs.len(),
                    ),
                    ..old(self)@.config
                },
                ..old(self)@
            }),
            final(self)@ == old(self)@.remembering_folders(),
    {
        let ghost m = self@;
        let mut i: usize = 0;
        while i < self.tabs.len()
            invariant
                i <= self.tabs@.len(),
                self@ == (AppModel {
                    config: ConfigModel {
                        ssh: with_folders(m.config.ssh, m.tabs, i as nat),
                        ..m.config
                    },
                    ..m
                }),
            decreases self.tabs.len() - i,
        {
            assert(self@.tabs[i as int] == self.tabs@[i as int]@);
            if let Some(f) = &self.tabs[i].files {
                let (local, remote) = f.folders();
                let host = f.host;
                self.config.remember_folders(host, local, remote);
            }
            i += 1;
        }
    }
}

proof fn lemma_contains_add(a: Seq<u128>, b: Seq<u128>, x: u128)
    ensures
        (a + b).contains(x) == (a.contains(x) || b.contains(x)),
{
    let s = a + b;
    if a.contains(x) {
        let i = choose|i: int| 0 <= i < a.len() && a[i] == x;
        assert(s[i] == x);
    }
    if b.contains(x) {
        let i = choose|i: int| 0 <= i < b.len() && b[i] == x;
        assert(s[a.len() + i] == x);
    }
    if s.contains(x) {
        let i = choose|i: int| 0 <= i < s.len() && s[i] == x;
        if i < a.len() {
            assert(a[i] == x);
        } else {
            assert(b[i - a.len()] == x);
        }
    }
}

impl Tab {
    /// Adds the histories of the panes to a list.
    pub fn add_histories(&self, r: &mut Vec<u128>)
        ensures
            forall|h: u128| #[trigger]
                final(r)@.contains(h) == (old(r)@.contains(h) || self@.histories.contains_value(h)),
    {
        let ghost first = r@;
        let ghost all = self.histories@.values();
        let values = self.histories.values();
        let ghost vals = vstd::std_specs::iter::IteratorSpec::remaining(&values).unref();
        assert(vals.take(0) =~= Seq::empty());
        for h in it: values
            invariant
                it.seq().unref() == vals,
                vals.to_set() == all,
                forall|x: u128| #[trigger]
                    r@.contains(x) == (first.contains(x) || vals.take(it.index()).contains(x)),
        {
            let ghost before = r@;
            let ghost done = vals.take(it.index());
            r.push(*h);
            proof {
                assert(vals.take(it.index() + 1) =~= done + seq![*h]);
                assert forall|x: u128| #[trigger] r@.contains(x) == (first.contains(x) || vals.take(
                    it.index() + 1,
                ).contains(x)) by {
                    assert(before + seq![*h] =~= r@);
                    lemma_contains_add(before, seq![*h], x);
                    lemma_contains_add(done, seq![*h], x);
                    assert(before.contains(x) == (first.contains(x) || done.contains(x)));
                }
            }
        }
        proof {
            assert(vals.take(vals.len() as int) =~= vals);
            assert forall|x: u128| #[trigger]
                r@.contains(x) == (first.contains(x) || self@.histories.contains_value(x)) by {
                assert(all.contains(x) == vals.contains(x)) by {
                    assert(vals.to_set().contains(x) == vals.contains(x));
                }
                assert(all.contains(x) == self.histories@.contains_value(x));
            }
        }
    }
}

/// Closing the tab of a profile keeps the histories of its panes: the tab can be
/// reopened.
pub proof fn law_closing_keeps_profile_histories(
    m: AppModel,
    index: usize,
    seen: Seq<(PaneId, Seq<char>)>,
    h: u128,
)
    requires
        index < m.tabs.len(),
        m.tabs[index as int].profile is Some,
        m.tabs[index as int].seeing(seen).snapshot().layout.history_ids().contains(h),
    ensures
        m.closing_tab(index, seen).keeps(h),
{
    let after = m.closing_tab(index, seen);
    let tab = m.tabs[index as int];
    let state = tab.seeing(seen).snapshot();
    let last = after.closed.last();
    assert(last == (SessionTabModel { profile: tab.profile, ssh: None, tab: state }));
    assert(after.closed[after.closed.len() - 1].tab.layout.history_ids().contains(h));
}

/// A pane of an SSH tab stays when its connection ends: the tab keeps its layout.
pub proof fn law_ssh_pane_stays(
    m: AppModel,
    pane: PaneId,
    index: usize,
    seen: Seq<(PaneId, Seq<char>)>,
)
    requires
        index < m.tabs.len(),
        m.tabs[index as int].ssh is Some,
    ensures
        m.exiting(pane, index, seen).tabs.len() == m.tabs.len(),
        m.exiting(pane, index, seen).tabs[index as int].layout == m.tabs[index as int].layout,
        m.exiting(pane, index, seen).tabs[index as int].dead.contains(pane),
{
}

/// Showing the files of a tab and then its terminals keeps the file manager, so that
/// transfers go on.
pub proof fn law_files_kept(
    m: AppModel,
    index: usize,
    local: Seq<char>,
    error: Option<Seq<char>>,
    platform: Platform,
)
    requires
        m.tab_host(index) is Some,
    ensures
        ({
            let shown = m.showing_files(index, true, local, error, platform);
            let back = shown.showing_files(index, false, local, error, platform);
            &&& shown.tabs[index as int].files is Some
            &&& shown.tabs[index as int].show_files
            &&& back.tabs[index as int].files == shown.tabs[index as int].files
            &&& !back.tabs[index as int].show_files
        }),
{
}

impl AppModel {
    /// After the shell of a pane started, or failed to.
    pub open spec fn pane_begun(
        self,
        index: usize,
        pane: PaneId,
        failure: Option<Seq<char>>,
    ) -> AppModel {
        let tab = self.tabs[index as int];
        match failure {
            None => AppModel {
                tabs: self.tabs.update(
                    index as int,
                    TabModel { running: tab.running.insert(pane), ..tab },
                ),
                ..self
            },
            Some(e) => AppModel { error: Some(e), ..self },
        }
    }

    /// After the shell of a pane started again, or failed to.
    pub open spec fn pane_again(
        self,
        index: usize,
        pane: PaneId,
        failure: Option<Seq<char>>,
    ) -> AppModel {
        let tab = self.tabs[index as int];
        match failure {
            None => AppModel {
                tabs: self.tabs.update(
                    index as int,
                    TabModel {
                        running: tab.running.insert(pane),
                        dead: tab.dead.remove(pane),
                        pending: less_pane(tab.pending, pane),
                        ..tab
                    },
                ),
                ..self
            },
            Some(e) => AppModel { error: Some(e), ..self },
        }
    }

    /// With the folders of the file managers kept in their hosts.
    pub open spec fn remembering_folders(self) -> AppModel {
        AppModel {
            config: ConfigModel {
                ssh: with_folders(self.config.ssh, self.tabs, self.tabs.len()),
                ..self.config
            },
            ..self
        }
    }

    /// Whether showing the files of a tab opens a session.
    pub open spec fn needs_files(self, index: usize, show: bool) -> bool {
        show && self.tab_host(index) is Some && self.tabs[index as int].files is None
    }
}

} // verus!
