//! What the sidebar does to tabs, profiles, hosts and groups: naming, coloring,
//! dragging and opening them.

use crate::app::{App, AppModel, ItemRename, ItemRenameModel, Rename, RenameModel};
use crate::app::{profile_tab, ssh_tab};
use crate::color::Color;
use crate::config::{ConfigModel, GroupModel, Profile, ProfileModel, SshHostModel};
use crate::editor::{trim_typed, typed};
use crate::find::{
    find_group, find_host, find_profile, group_place, has_host, has_profile, host_place,
    profile_place,
};
use crate::ids::{fresh_id, is_random};
use crate::model::{lemma_insert, lemma_push, lemma_remove, lemma_update, models};
use crate::pane::{PaneId, Rect};
use crate::paths::str_view;
use crate::profiles::{name_in_use, name_used};
use crate::sidebar::{group_set, group_at, with_new_group};
use crate::strings::Strings;
use crate::tab::{seen_views, Tab, TabModel};
use crate::text::{decimal, push_numeral, trim_str, trimmed};
use vstd::prelude::*;

verus! {

broadcast use vstd::std_specs::hash::group_hash_axioms;

/// The hosts, with one changed.
pub open spec fn host_set(ssh: Seq<SshHostModel>, id: u128, h: SshHostModel) -> Seq<SshHostModel> {
    let i = host_place(ssh, id);
    if i < ssh.len() {
        ssh.update(i, h)
    } else {
        ssh
    }
}

/// The host of an id.
pub open spec fn host_at(ssh: Seq<SshHostModel>, id: u128) -> SshHostModel {
    ssh[host_place(ssh, id)]
}

/// A tab with a color, if it is of a host.
pub open spec fn host_tab_colored(t: TabModel, id: u128, color: Option<Color>) -> TabModel {
    if t.ssh == Some(id) {
        TabModel { color, ..t }
    } else {
        t
    }
}

/// Whether a tab is neither a profile nor an SSH host.
pub open spec fn is_plain(t: TabModel) -> bool {
    t.ssh is None && t.profile is None
}

/// The places of the plain tabs among the first ones.
pub open spec fn plain_places(tabs: Seq<TabModel>, n: nat) -> Seq<usize>
    decreases n,
{
    if n == 0 {
        Seq::empty()
    } else {
        let rest = plain_places(tabs, (n - 1) as nat);
        if is_plain(tabs[n - 1]) {
            rest.push((n - 1) as usize)
        } else {
            rest
        }
    }
}

/// Space between two rows.
pub const ROW_GAP: i32 = 2048;

/// Whether a height is in the slot of a tab, or in the space below it.
pub open spec fn in_slot(r: Rect, y: i32) -> bool {
    r.top <= y <= r.bottom + ROW_GAP
}

/// The tab whose slot a height is in, among those from the row of an index on.
pub open spec fn slot_at(rects: Seq<(usize, Rect)>, y: i32, from: int) -> Option<usize>
    decreases rects.len() - from,
{
    if from < 0 || from >= rects.len() {
        None
    } else if in_slot(rects[from].1, y) {
        Some(rects[from].0)
    } else {
        slot_at(rects, y, from + 1)
    }
}

/// Where the tab shown is after a tab was moved.
pub open spec fn active_after(active: usize, from: usize, to: usize) -> usize {
    if active == from {
        to
    } else if from < active <= to {
        (active - 1) as usize
    } else if to <= active < from {
        (active + 1) as usize
    } else {
        active
    }
}

impl AppModel {
    /// With a tab, and its host, of a color.
    pub open spec fn coloring_tab(self, i: int, color: Option<Color>) -> AppModel {
        let tab = self.tabs[i];
        AppModel {
            tabs: self.tabs.update(i, TabModel { color, ..tab }),
            config: ConfigModel {
                ssh: match tab.ssh {
                    Some(id) => host_set(
                        self.config.ssh,
                        id,
                        SshHostModel { color, ..host_at(self.config.ssh, id) },
                    ),
                    None => self.config.ssh,
                },
                ..self.config
            },
            ..self
        }
    }

    /// With a tab saved as a profile, which it keeps up to date.
    pub open spec fn saving_profile(
        self,
        index: usize,
        title: Option<Seq<char>>,
        seen: Seq<(PaneId, Seq<char>)>,
        id: u128,
    ) -> AppModel {
        if index < self.tabs.len() {
            let tab = self.tabs[index as int];
            let kept = TabModel {
                name: Some(tab.called(title)),
                profile: Some(id),
                ..tab
            }.seeing(seen);
            AppModel {
                tabs: self.tabs.update(index as int, kept),
                config: ConfigModel {
                    profiles: self.config.profiles.push(
                        ProfileModel {
                            id,
                            tab: kept.snapshot(),
                            commands: Seq::empty(),
                            extra: Seq::empty(),
                        },
                    ),
                    ..self.config
                },
                ..self
            }
        } else {
            self
        }
    }

    /// With a name given to a tab: to its host too, and a plain tab becomes a profile.
    pub open spec fn naming_tab(
        self,
        i: usize,
        text: Seq<char>,
        title: Option<Seq<char>>,
        seen: Seq<(PaneId, Seq<char>)>,
        id: u128,
    ) -> AppModel {
        let name = typed(text);
        let tab = self.tabs[i as int];
        let named = AppModel {
            tabs: self.tabs.update(i as int, TabModel { name, ..tab }),
            ..self
        };
        if tab.ssh is Some && has_host(self.config.ssh, tab.ssh->0) {
            match name {
                Some(n) => AppModel {
                    config: ConfigModel {
                        ssh: host_set(
                            self.config.ssh,
                            tab.ssh->0,
                            SshHostModel { name: n, ..host_at(self.config.ssh, tab.ssh->0) },
                        ),
                        ..self.config
                    },
                    ..named
                },
                None => named,
            }
        } else if name is Some && tab.profile is None {
            named.saving_profile(i, title, seen, id)
        } else {
            named
        }
    }

    /// Whether the name typed for a tab is that of another profile.
    pub open spec fn name_refused(self, i: int, text: Seq<char>) -> bool {
        let tab = self.tabs[i];
        tab.ssh is None && match typed(text) {
            Some(name) => name_used(self.config.profiles, tab.profile, name),
            None => false,
        }
    }

    /// With the name typed for a tab given to it. One that is taken is refused:
    /// clicking away cancels, confirming keeps the editor open with the reason.
    pub open spec fn renaming(
        self,
        i: usize,
        confirmed: bool,
        taken: Seq<char>,
        title: Option<Seq<char>>,
        seen: Seq<(PaneId, Seq<char>)>,
        id: u128,
    ) -> AppModel {
        match self.rename {
            None => AppModel { focus_terminal: true, ..self },
            Some(r) => {
                if self.name_refused(i as int, r.text) {
                    AppModel {
                        rename: if confirmed {
                            Some(RenameModel { error: Some(taken), ..r })
                        } else {
                            None
                        },
                        ..self
                    }
                } else {
                    AppModel {
                        rename: None,
                        focus_terminal: true,
                        ..self.naming_tab(i, r.text, title, seen, id)
                    }
                }
            },
        }
    }

    /// With a tab moved to another place. The tab shown stays shown.
    pub open spec fn moving_tab(self, from: usize, to: usize) -> AppModel {
        AppModel {
            tabs: self.tabs.remove(from as int).insert(to as int, self.tabs[from as int]),
            active: active_after(self.active, from, to),
            rename: None,
            ..self
        }
    }

    /// With a profile or a host, and its tab, of a color.
    pub open spec fn coloring_item(self, id: u128, color: Option<Color>) -> AppModel {
        let m = self.coloring_profile(id, color);
        AppModel {
            config: ConfigModel {
                ssh: host_set(
                    m.config.ssh,
                    id,
                    SshHostModel { color, ..host_at(m.config.ssh, id) },
                ),
                ..m.config
            },
            tabs: m.tabs.map_values(|t: TabModel| host_tab_colored(t, id, color)),
            ..m
        }
    }

    /// With a profile, or else an SSH host, open.
    pub open spec fn opening_item(self, id: u128) -> AppModel {
        if has_profile(self.config.profiles, id) {
            self.opening_profile(id)
        } else {
            self.opening_ssh(id)
        }
    }

    /// The name of a profile or an SSH host.
    pub open spec fn item_name(self, id: u128, untitled: Seq<char>) -> Option<Seq<char>> {
        if has_profile(self.config.profiles, id) {
            Some(self.config.profiles[profile_place(self.config.profiles, id)].title(untitled))
        } else if has_host(self.config.ssh, id) {
            Some(host_at(self.config.ssh, id).name)
        } else {
            None
        }
    }
}

/// A profile or an SSH host, as shown in the sidebar.
#[derive(Debug)]
pub struct Item {
    pub name: String,
    pub color: Option<Color>,
    pub ssh: bool,
    /// Index of its open tab.
    pub open: Option<usize>,
    pub hint: String,
}

#[verifier::ext_equal]
pub struct ItemModel {
    pub name: Seq<char>,
    pub color: Option<Color>,
    pub ssh: bool,
    pub open: Option<usize>,
    pub hint: Seq<char>,
}

impl View for Item {
    type V = ItemModel;

    open spec fn view(&self) -> ItemModel {
        ItemModel {
            name: self.name@,
            color: self.color,
            ssh: self.ssh,
            open: self.open,
            hint: self.hint@,
        }
    }
}

/// An index, unless it is past the end.
pub open spec fn within(i: int, n: nat) -> Option<usize> {
    if i < n {
        Some(i as usize)
    } else {
        None
    }
}

/// A profile or an SSH host, as shown in the sidebar; `address` is that of the host.
pub open spec fn item_of(m: AppModel, id: u128, address: Seq<char>, t: Strings) -> Option<ItemModel> {
    if has_profile(m.config.profiles, id) {
        let p = m.config.profiles[profile_place(m.config.profiles, id)];
        Some(
            ItemModel {
                name: p.title(t.untitled@),
                color: p.tab.color,
                ssh: false,
                open: within(profile_tab(m.tabs, id), m.tabs.len()),
                hint: decimal(p.tab.layout.count()) + " "@ + t.layout_panes@,
            },
        )
    } else if has_host(m.config.ssh, id) {
        let h = host_at(m.config.ssh, id);
        Some(
            ItemModel {
                name: h.name,
                color: h.color,
                ssh: true,
                open: within(ssh_tab(m.tabs, id), m.tabs.len()),
                hint: address,
            },
        )
    } else {
        None
    }
}

impl App {
    /// Colors a tab, and its host.
    pub fn color_tab(&mut self, i: usize, color: Option<Color>)
        requires
            i < old(self).tabs@.len(),
        ensures
            final(self)@ == old(self)@.coloring_tab(i as int, color),
    {
        let ghost m = self@;
        let ghost before = self.tabs@;
        self.tabs[i].color = color;
        proof {
            assert(self.tabs@ =~= before.update(i as int, self.tabs@[i as int]));
            lemma_update(before, i as int, self.tabs@[i as int]);
        }
        if let Some(id) = self.tabs[i].ssh {
            self.color_host(id, color);
        }
        assert(self@ =~= m.coloring_tab(i as int, color));
    }

    fn color_host(&mut self, id: u128, color: Option<Color>)
        ensures
            final(self)@ == (AppModel {
                config: ConfigModel {
                    ssh: host_set(
                        old(self)@.config.ssh,
                        id,
                        SshHostModel { color, ..host_at(old(self)@.config.ssh, id) },
                    ),
                    ..old(self)@.config
                },
                ..old(self)@
            }),
    {
        let h = find_host(&self.config.ssh, id);
        if h < self.config.ssh.len() {
            let ghost before = self.config.ssh@;
            self.config.ssh[h].color = color;
            proof {
                assert(self.config.ssh@ =~= before.update(h as int, self.config.ssh@[h as int]));
                lemma_update(before, h as int, self.config.ssh@[h as int]);
            }
        }
    }

    /// Opens the editor of a tab's name; `title` is that of its focused program.
    pub fn start_rename(&mut self, i: usize, title: Option<&str>)
        requires
            i < old(self).tabs@.len(),
        ensures
            final(self)@ == (AppModel {
                rename: Some(
                    RenameModel {
                        tab: i,
                        text: old(self)@.tabs[i as int].called(str_view(title)),
                        select_all: 3,
                        error: None,
                    },
                ),
                ..old(self)@
            }),
            final(self)@ == old(self)@.rename_started(i, str_view(title)),
    {
        assert(self@.tabs[i as int] == self.tabs@[i as int]@);
        let text = self.tabs[i].title(title);
        self.rename = Some(Rename { tab: i, text, select_all: 3, error: None });
    }

    /// Saves a tab as a profile of a given id.
    pub fn save_as_profile_with(
        &mut self,
        index: usize,
        title: Option<&str>,
        seen: &Vec<(PaneId, String)>,
        id: u128,
    )
        ensures
            final(self)@ == old(self)@.saving_profile(
                index,
                str_view(title),
                seen_views(seen@),
                id,
            ),
    {
        if index >= self.tabs.len() {
            return;
        }
        let ghost m = self@;
        let ghost before = self.tabs@;
        let ghost profiles = self.config.profiles@;
        assert(m.tabs[index as int] == self.tabs@[index as int]@);
        let state = self.tabs[index].become_profile(title, seen, id);
        let profile = Profile { id, tab: state, commands: Vec::new(), extra: Vec::new() };
        proof {
            assert(self.tabs@ =~= before.update(index as int, self.tabs@[index as int]));
            lemma_update(before, index as int, self.tabs@[index as int]);
        }
        self.config.profiles.push(profile);
        proof {
            lemma_push(profiles, profile);
            assert(profile@.commands =~= Seq::empty());
            assert(profile@.extra =~= Seq::empty());
            assert(self@ =~= m.saving_profile(index, str_view(title), seen_views(seen@), id));
        }
    }

    /// Saves a tab as a profile. Gives its id.
    pub fn save_as_profile(
        &mut self,
        index: usize,
        title: Option<&str>,
        seen: &Vec<(PaneId, String)>,
    ) -> (id: u128)
        ensures
            is_random(id),
            final(self)@ == old(self)@.saving_profile(
                index,
                str_view(title),
                seen_views(seen@),
                id,
            ),
    {
        let id = fresh_id();
        self.save_as_profile_with(index, title, seen, id);
        id
    }

    fn name_host(&mut self, id: u128, name: String)
        requires
            has_host(old(self)@.config.ssh, id),
        ensures
            final(self)@ == (AppModel {
                config: ConfigModel {
                    ssh: host_set(
                        old(self)@.config.ssh,
                        id,
                        SshHostModel { name: name@, ..host_at(old(self)@.config.ssh, id) },
                    ),
                    ..old(self)@.config
                },
                ..old(self)@
            }),
    {
        let h = find_host(&self.config.ssh, id);
        let ghost before = self.config.ssh@;
        self.config.ssh[h].name = name;
        proof {
            assert(self.config.ssh@ =~= before.update(h as int, self.config.ssh@[h as int]));
            lemma_update(before, h as int, self.config.ssh@[h as int]);
        }
    }

    fn set_tab_name(&mut self, i: usize, name: &Option<String>)
        requires
            i < old(self).tabs@.len(),
        ensures
            final(self)@ == (AppModel {
                tabs: old(self)@.tabs.update(
                    i as int,
                    TabModel {
                        name: crate::text::opt_view(*name),
                        ..old(self)@.tabs[i as int]
                    },
                ),
                ..old(self)@
            }),
            final(self).tabs@.len() == old(self).tabs@.len(),
    {
        let ghost before = self.tabs@;
        self.tabs[i].name = crate::text::clone_opt(name);
        proof {
            assert(self.tabs@ =~= before.update(i as int, self.tabs@[i as int]));
            lemma_update(before, i as int, self.tabs@[i as int]);
        }
    }

    fn name_tab(
        &mut self,
        i: usize,
        text: &str,
        title: Option<&str>,
        seen: &Vec<(PaneId, String)>,
        id: u128,
    )
        requires
            i < old(self).tabs@.len(),
        ensures
            final(self)@ == old(self)@.naming_tab(i, text@, str_view(title), seen_views(seen@), id),
    {
        let ghost m = self@;
        assert(m.tabs[i as int] == self.tabs@[i as int]@);
        let ssh = self.tabs[i].ssh;
        let profile = self.tabs[i].profile;
        let name = trim_typed(text);
        self.set_tab_name(i, &name);
        let host = match ssh {
            Some(h) => find_host(&self.config.ssh, h) < self.config.ssh.len(),
            None => false,
        };
        if host {
            if let Some(h) = ssh {
                if let Some(n) = name {
                    self.name_host(h, n);
                }
            }
        } else if name.is_some() && profile.is_none() {
            // Naming a tab means it's worth keeping: it becomes a profile right away.
            self.save_as_profile_with(i, title, seen, id);
        }
        assert(self@ =~= m.naming_tab(i, text@, str_view(title), seen_views(seen@), id));
    }

    fn name_taken(&self, i: usize, text: &str) -> (r: bool)
        requires
            i < self.tabs@.len(),
        ensures
            r == self@.name_refused(i as int, text@),
    {
        assert(self@.tabs[i as int] == self.tabs@[i as int]@);
        if self.tabs[i].ssh.is_some() {
            return false;
        }
        match trim_typed(text) {
            Some(name) => name_in_use(&self.config.profiles, self.tabs[i].profile, name.as_str()),
            None => false,
        }
    }

    /// Gives a tab the name typed for it; a plain tab becomes a profile of a given id.
    pub fn commit_rename_with(
        &mut self,
        i: usize,
        confirmed: bool,
        title: Option<&str>,
        seen: &Vec<(PaneId, String)>,
        id: u128,
        t: &Strings,
    )
        requires
            i < old(self).tabs@.len(),
        ensures
            final(self)@ == old(self)@.renaming(
                i,
                confirmed,
                t.name_taken@,
                str_view(title),
                seen_views(seen@),
                id,
            ),
    {
        let ghost m = self@;
        let mut r = match self.rename.take() {
            Some(r) => r,
            None => {
                self.focus_terminal = true;
                return;
            },
        };
        let ghost half = self@;
        if self.name_taken(i, r.text.as_str()) {
            // Clicking away cancels; Enter keeps the editor open with the reason.
            if confirmed {
                r.error = Some(t.name_taken);
                self.rename = Some(r);
            }
        } else {
            self.name_tab(i, r.text.as_str(), title, seen, id);
            self.focus_terminal = true;
            proof {
                lemma_naming(m, half, i, r@.text, str_view(title), seen_views(seen@), id);
            }
        }
    }

    /// Gives a tab the name typed for it; a plain tab becomes a profile.
    pub fn commit_rename(
        &mut self,
        i: usize,
        confirmed: bool,
        title: Option<&str>,
        seen: &Vec<(PaneId, String)>,
        t: &Strings,
    ) -> (id: u128)
        requires
            i < old(self).tabs@.len(),
        ensures
            is_random(id),
            final(self)@ == old(self)@.renaming(
                i,
                confirmed,
                t.name_taken@,
                str_view(title),
                seen_views(seen@),
                id,
            ),
    {
        let id = fresh_id();
        self.commit_rename_with(i, confirmed, title, seen, id, t);
        id
    }

    /// Closes the editor of a tab's name.
    pub fn cancel_rename(&mut self)
        ensures
            final(self)@ == (AppModel { rename: None, focus_terminal: true, ..old(self)@ }),
            final(self)@ == old(self)@.rename_dropped(),
    {
        self.rename = None;
        self.focus_terminal = true;
    }

    /// The open tabs that are neither a profile nor an SSH host.
    pub fn plain_tabs(&self) -> (r: Vec<usize>)
        ensures
            r@ == plain_places(self@.tabs, self@.tabs.len()),
    {
        let mut r: Vec<usize> = Vec::new();
        let mut i: usize = 0;
        while i < self.tabs.len()
            invariant
                i <= self.tabs@.len(),
                r@ == plain_places(self@.tabs, i as nat),
            decreases self.tabs.len() - i,
        {
            assert(self@.tabs[i as int] == self.tabs@[i as int]@);
            if self.tabs[i].ssh.is_none() && self.tabs[i].profile.is_none() {
                r.push(i);
            }
            i += 1;
        }
        r
    }

    /// Moves a tab to another place. The tab shown stays shown.
    pub fn move_tab(&mut self, from: usize, to: usize)
        requires
            from < old(self).tabs@.len(),
            to < old(self).tabs@.len(),
            old(self).active < old(self).tabs@.len(),
        ensures
            final(self)@ == old(self)@.moving_tab(from, to),
    {
        move_in(&mut self.tabs, from, to);
        self.active = follow_move(self.active, from, to);
        self.rename = None;
    }

    /// A tab is dragged: swaps it with the neighbour as soon as its middle enters the
    /// neighbour's slot. Gives its new place, if it moved.
    pub fn drag_tab(&mut self, i: usize, y: i32, rects: &Vec<(usize, Rect)>) -> (moved: Option<usize>)
        requires
            i < old(self).tabs@.len(),
            old(self).active < old(self).tabs@.len(),
            forall|k: int|
                0 <= k < rects@.len() ==> (#[trigger] rects@[k]).0 < old(self).tabs@.len(),
        ensures
            ({
                let to = slot_at(rects@, y, 0);
                &&& moved == if to == Some(i) {
                    None
                } else {
                    to
                }
                &&& final(self)@ == match moved {
                    Some(to) => old(self)@.moving_tab(i, to),
                    None => old(self)@,
                }
            }),
            moved == dragged_to(rects@, i, y),
    {
        match find_slot(rects, y) {
            Some(to) => {
                if to != i {
                    self.move_tab(i, to);
                    Some(to)
                } else {
                    None
                }
            },
            None => None,
        }
    }

    /// Colors a profile or a host, and its tab.
    pub fn color_item(&mut self, id: u128, color: Option<Color>)
        ensures
            final(self)@ == old(self)@.coloring_item(id, color),
    {
        self.set_profile_color(id, color);
        let ghost m = self@;
        self.color_host(id, color);
        let ghost half = self@;
        let mut i: usize = 0;
        while i < self.tabs.len()
            invariant
                i <= self.tabs@.len(),
                self.tabs@.len() == m.tabs.len(),
                half.tabs == m.tabs,
                forall|j: int|
                    0 <= j < i ==> (#[trigger] self.tabs@[j])@ == host_tab_colored(
                        m.tabs[j],
                        id,
                        color,
                    ),
                forall|j: int| i <= j < m.tabs.len() ==> (#[trigger] self.tabs@[j])@ == m.tabs[j],
                self@ == (AppModel { tabs: self@.tabs, ..half }),
            decreases self.tabs.len() - i,
        {
            if self.tabs[i].ssh == Some(id) {
                self.tabs[i].color = color;
            }
            assert(self.tabs@[i as int]@ =~= host_tab_colored(m.tabs[i as int], id, color));
            i += 1;
        }
        assert(self@.tabs =~= m.tabs.map_values(|t: TabModel| host_tab_colored(t, id, color)));
        assert(self@ =~= old(self)@.coloring_item(id, color));
    }

    /// Opens the editor of the name of a profile.
    pub fn start_item_rename(&mut self, id: u128, t: &Strings)
        ensures
            final(self)@ == match old(self)@.item_name(id, t.untitled@) {
                Some(text) => AppModel {
                    item_rename: Some(ItemRenameModel { id, text, error: None, fresh: true }),
                    ..old(self)@
                },
                None => old(self)@,
            },
            final(self)@ == old(self)@.item_rename_started(id, t.untitled@),
    {
        let p = find_profile(&self.config.profiles, id);
        if p < self.config.profiles.len() {
            assert(self@.config.profiles[p as int] == self.config.profiles@[p as int]@);
            let text = self.config.profiles[p].name(t.untitled);
            self.item_rename = Some(ItemRename { id, text, error: None, fresh: true });
            return;
        }
        let h = find_host(&self.config.ssh, id);
        if h < self.config.ssh.len() {
            assert(self@.config.ssh[h as int] == self.config.ssh@[h as int]@);
            let text = self.config.ssh[h].name.clone();
            self.item_rename = Some(ItemRename { id, text, error: None, fresh: true });
        }
    }

    /// Gives a profile the name typed for it. One that is refused cancels, unless it
    /// was confirmed: the editor then stays open with the reason.
    pub fn rename_item(&mut self, id: u128, text: &str, confirmed: bool, t: &Strings)
        ensures
            ({
                let m = old(self)@;
                let to = trimmed(text@);
                let refused = if to.len() == 0 {
                    Some(t.host_required@)
                } else if name_used(m.config.profiles, Some(id), to) {
                    Some(t.name_taken@)
                } else {
                    None
                };
                final(self)@ == match refused {
                    None => AppModel { item_rename: None, ..m.renaming_profile(id, to) },
                    Some(error) => AppModel {
                        item_rename: match m.item_rename {
                            Some(r) if confirmed => Some(
                                ItemRenameModel { error: Some(error), ..r },
                            ),
                            _ => None,
                        },
                        ..m
                    },
                }
            }),
            final(self)@ == old(self)@.item_renamed(id, text@, confirmed, *t),
    {
        let ghost m = self@;
        match self.rename_profile(id, text, t) {
            Ok(_) => {
                self.item_rename = None;
            },
            Err(error) => {
                let edited = self.item_rename.take();
                if confirmed {
                    if let Some(mut r) = edited {
                        r.error = Some(error);
                        self.item_rename = Some(r);
                    }
                }
            },
        }
    }

    /// Opens the editor of the name of a group.
    pub fn start_group_rename(&mut self, id: u128)
        ensures
            final(self)@ == if group_place(old(self)@.config.groups, id)
                < old(self)@.config.groups.len() {
                AppModel {
                    group_rename: Some((id, group_at(old(self)@.config, id).name, true)),
                    ..old(self)@
                }
            } else {
                old(self)@
            },
            final(self)@ == old(self)@.group_rename_started(id),
    {
        let g = find_group(&self.config.groups, id);
        if g < self.config.groups.len() {
            assert(self@.config.groups[g as int] == self.config.groups@[g as int]@);
            self.group_rename = Some((id, self.config.groups[g].name.clone(), true));
        }
    }

    /// Gives a group the name typed for it, unless that is empty.
    pub fn rename_group(&mut self, id: u128, typed: &str)
        ensures
            final(self)@ == ({
                let name = trimmed(typed@);
                AppModel {
                    config: if name.len() == 0 {
                        old(self)@.config
                    } else {
                        group_set(
                            old(self)@.config,
                            id,
                            GroupModel { name, ..group_at(old(self)@.config, id) },
                        )
                    },
                    group_rename: None,
                    ..old(self)@
                }
            }),
            final(self)@ == old(self)@.group_renamed(id, typed@),
    {
        let name = trim_str(typed);
        self.config.rename_group(id, name);
        self.group_rename = None;
    }

    /// Adds a group, whose name is then edited.
    pub fn new_group(&mut self, local: bool, t: &Strings) -> (id: u128)
        ensures
            is_random(id),
            final(self)@ == (AppModel {
                config: ConfigModel {
                    groups: old(self)@.config.groups.push(
                        GroupModel::fresh(id, t.new_group_name@, local),
                    ),
                    ..old(self)@.config
                },
                group_rename: Some((id, t.new_group_name@, true)),
                ..old(self)@
            }),
            final(self)@ == old(self)@.group_added(id, t.new_group_name@, local),
    {
        let id = self.config.new_group(t.new_group_name, local);
        self.group_rename = Some((id, t.new_group_name.to_owned(), true));
        id
    }

    /// Adds a group holding an item, whose name is then edited.
    pub fn new_group_with(&mut self, item: u128, t: &Strings) -> (id: u128)
        ensures
            is_random(id),
            final(self)@ == (AppModel {
                config: with_new_group(old(self)@.config, id, t.new_group_name@, item),
                group_rename: Some((id, t.new_group_name@, true)),
                ..old(self)@
            }),
            final(self)@ == old(self)@.group_added_with(id, t.new_group_name@, item),
    {
        let id = self.config.new_group_with(t.new_group_name, item);
        self.group_rename = Some((id, t.new_group_name.to_owned(), true));
        id
    }

    /// Opens a profile, or connects to an SSH host.
    pub fn open_item(&mut self, id: u128)
        requires
            has_profile(old(self)@.config.profiles, id) ==> old(self).next_pane
                + old(self)@.config.profiles[profile_place(
                old(self)@.config.profiles,
                id,
            )].tab.layout.count() <= u64::MAX,
            old(self).next_pane < u64::MAX,
        ensures
            final(self)@ == old(self)@.opening_item(id),
    {
        if find_profile(&self.config.profiles, id) < self.config.profiles.len() {
            self.open_profile(id);
        } else {
            self.open_ssh(id);
        }
    }

    /// A profile or an SSH host, as shown in the sidebar; `address` is that of the host.
    pub fn item(&self, id: u128, address: &str, t: &Strings) -> (r: Option<Item>)
        requires
            has_profile(self@.config.profiles, id) ==> self@.config.profiles[profile_place(
                self@.config.profiles,
                id,
            )].tab.layout.count() <= usize::MAX,
        ensures
            crate::app::opt(r) == item_of(self@, id, address@, *t),
    {
        let p = find_profile(&self.config.profiles, id);
        if p < self.config.profiles.len() {
            assert(self@.config.profiles[p as int] == self.config.profiles@[p as int]@);
            let panes = self.config.profiles[p].tab.layout.panes();
            let mut hint = String::new();
            push_numeral(&mut hint, panes as u64, 10);
            hint.push_str(" ");
            hint.push_str(t.layout_panes);
            let tab = self.find_profile_tab(id);
            let item = Item {
                name: self.config.profiles[p].name(t.untitled),
                color: self.config.profiles[p].tab.color,
                ssh: false,
                open: if tab < self.tabs.len() {
                    Some(tab)
                } else {
                    None
                },
                hint,
            };
            assert(item@.hint =~= decimal(panes as nat) + " "@ + t.layout_panes@);
            return Some(item);
        }
        let h = find_host(&self.config.ssh, id);
        if h < self.config.ssh.len() {
            assert(self@.config.ssh[h as int] == self.config.ssh@[h as int]@);
            let tab = self.find_ssh_tab(id);
            return Some(
                Item {
                    name: self.config.ssh[h].name.clone(),
                    color: self.config.ssh[h].color,
                    ssh: true,
                    open: if tab < self.tabs.len() {
                        Some(tab)
                    } else {
                        None
                    },
                    hint: address.to_owned(),
                },
            );
        }
        None
    }
}

fn move_in(tabs: &mut Vec<Tab>, from: usize, to: usize)
    requires
        from < old(tabs)@.len(),
        to < old(tabs)@.len(),
    ensures
        models(final(tabs)@) == models(old(tabs)@).remove(from as int).insert(
            to as int,
            models(old(tabs)@)[from as int],
        ),
{
    let ghost before = tabs@;
    let tab = tabs.remove(from);
    let ghost less = tabs@;
    tabs.insert(to, tab);
    proof {
        lemma_remove(before, from as int);
        lemma_insert(less, to as int, tab);
    }
}

fn follow_move(active: usize, from: usize, to: usize) -> (r: usize)
    ensures
        r == active_after(active, from, to),
{
    if active == from {
        to
    } else if from < active && active <= to {
        active - 1
    } else if to <= active && active < from {
        active + 1
    } else {
        active
    }
}

fn find_slot(rects: &Vec<(usize, Rect)>, y: i32) -> (r: Option<usize>)
    ensures
        r == slot_at(rects@, y, 0),
        r matches Some(to) ==> exists|k: int|
            0 <= k < rects@.len() && (#[trigger] rects@[k]).0 == to,
{
    let mut i: usize = 0;
    while i < rects.len()
        invariant
            i <= rects@.len(),
            slot_at(rects@, y, 0) == slot_at(rects@, y, i as int),
        decreases rects.len() - i,
    {
        let r = rects[i].1;
        if y >= r.top && y as i64 <= r.bottom as i64 + ROW_GAP as i64 {
            return Some(rects[i].0);
        }
        i += 1;
    }
    None
}

impl Tab {
    /// Becomes a profile: keeps its title as its name. Gives what is saved of it.
    pub fn become_profile(&mut self, title: Option<&str>, seen: &Vec<(PaneId, String)>, id: u128) -> (r:
        crate::config::TabState)
        ensures
            final(self)@ == (TabModel {
                name: Some(old(self)@.called(str_view(title))),
                profile: Some(id),
                ..old(self)@
            }.seeing(seen_views(seen@))),
            r@ == final(self)@.snapshot(),
    {
        let name = self.title(title);
        self.name = Some(name);
        self.profile = Some(id);
        self.state(seen)
    }
}

/// Naming a tab does not depend on the editor of its name.
proof fn lemma_naming(
    m: AppModel,
    half: AppModel,
    i: usize,
    text: Seq<char>,
    title: Option<Seq<char>>,
    seen: Seq<(PaneId, Seq<char>)>,
    id: u128,
)
    requires
        half == (AppModel { rename: None, ..m }),
        i < m.tabs.len(),
    ensures
        (AppModel { focus_terminal: true, ..half.naming_tab(i, text, title, seen, id) }) == (AppModel {
            rename: None,
            focus_terminal: true,
            ..m.naming_tab(i, text, title, seen, id)
        }),
{
    assert((AppModel { focus_terminal: true, ..half.naming_tab(i, text, title, seen, id) })
        =~= (AppModel {
        rename: None,
        focus_terminal: true,
        ..m.naming_tab(i, text, title, seen, id)
    }));
}

/// Dragging a tab keeps the tab that is shown, and loses none.
pub proof fn law_move_tab(m: AppModel, from: usize, to: usize)
    requires
        from < m.tabs.len(),
        to < m.tabs.len(),
        m.active < m.tabs.len(),
        m.tabs.len() <= usize::MAX,
    ensures
        ({
            let after = m.moving_tab(from, to);
            &&& after.tabs[after.active as int] == m.tabs[m.active as int]
            &&& after.active < after.tabs.len()
            &&& after.tabs[to as int] == m.tabs[from as int]
            &&& after.tabs.to_multiset() == m.tabs.to_multiset()
        }),
{
    broadcast use vstd::seq_lib::group_to_multiset_ensures;

    let after = m.moving_tab(from, to);
    let less = m.tabs.remove(from as int);
    let x = m.tabs[from as int];
    assert(after.tabs.remove(to as int) =~= less);
    assert(after.tabs[to as int] == x);
    assert(m.tabs.to_multiset().remove(x).insert(x) =~= m.tabs.to_multiset());
    assert(after.tabs.to_multiset().remove(x).insert(x) =~= after.tabs.to_multiset());
}

/// Moving a tab back undoes the move.
pub proof fn law_move_back(m: AppModel, from: usize, to: usize)
    requires
        from < m.tabs.len(),
        to < m.tabs.len(),
        m.active < m.tabs.len(),
        m.tabs.len() <= usize::MAX,
        m.rename is None,
    ensures
        m.moving_tab(from, to).moving_tab(to, from) == m,
{
    let there = m.moving_tab(from, to);
    let back = there.moving_tab(to, from);
    let less = m.tabs.remove(from as int);
    assert(there.tabs.remove(to as int) =~= less);
    assert(less.insert(from as int, m.tabs[from as int]) =~= m.tabs);
    assert(back =~= m);
}

/// A name given to a plain tab makes it a profile of that name, which its tab keeps
/// up to date; a profile of that name did not exist.
pub proof fn law_named_tab_is_profile(
    m: AppModel,
    i: usize,
    confirmed: bool,
    taken: Seq<char>,
    title: Option<Seq<char>>,
    seen: Seq<(PaneId, Seq<char>)>,
    id: u128,
)
    requires
        i < m.tabs.len(),
        is_plain(m.tabs[i as int]),
        m.rename matches Some(r) && typed(r.text) is Some && !m.name_refused(i as int, r.text),
    ensures
        ({
            let after = m.renaming(i, confirmed, taken, title, seen, id);
            let name = typed(m.rename->0.text);
            &&& after.tabs[i as int].name == name
            &&& after.tabs[i as int].profile == Some(id)
            &&& after.config.profiles.len() == m.config.profiles.len() + 1
            &&& after.config.profiles.last().id == id
            &&& after.config.profiles.last().tab.name == name
            &&& after.config.profiles.last().tab == after.tabs[i as int].snapshot()
            &&& !name_used(m.config.profiles, None, name->0)
            &&& after.rename is None
        }),
{
}

/// A refused name changes neither tabs nor profiles.
pub proof fn law_refused_name(
    m: AppModel,
    i: usize,
    confirmed: bool,
    taken: Seq<char>,
    title: Option<Seq<char>>,
    seen: Seq<(PaneId, Seq<char>)>,
    id: u128,
)
    requires
        m.rename matches Some(r) && m.name_refused(i as int, r.text),
    ensures
        ({
            let after = m.renaming(i, confirmed, taken, title, seen, id);
            &&& after == (AppModel { rename: after.rename, ..m })
            &&& after.rename is Some == confirmed
        }),
{
}

impl AppModel {
    /// With the name of a tab being typed.
    pub open spec fn rename_started(self, i: usize, title: Option<Seq<char>>) -> AppModel {
        AppModel {
            rename: Some(
                RenameModel {
                    tab: i,
                    text: self.tabs[i as int].called(title),
                    select_all: 3,
                    error: None,
                },
            ),
            ..self
        }
    }

    /// Without a name being typed.
    pub open spec fn rename_dropped(self) -> AppModel {
        AppModel { rename: None, focus_terminal: true, ..self }
    }

    /// With the name of a profile or host being typed.
    pub open spec fn item_rename_started(self, id: u128, untitled: Seq<char>) -> AppModel {
        match self.item_name(id, untitled) {
            Some(text) => AppModel {
                item_rename: Some(ItemRenameModel { id, text, error: None, fresh: true }),
                ..self
            },
            None => self,
        }
    }

    /// Why a name is refused for a profile, if it is.
    pub open spec fn item_name_refused(self, id: u128, name: Seq<char>, t: Strings) -> Option<
        Seq<char>,
    > {
        if name.len() == 0 {
            Some(t.host_required@)
        } else if name_used(self.config.profiles, Some(id), name) {
            Some(t.name_taken@)
        } else {
            None
        }
    }

    /// After a name was typed for a profile.
    pub open spec fn item_renamed(
        self,
        id: u128,
        text: Seq<char>,
        confirmed: bool,
        t: Strings,
    ) -> AppModel {
        match self.item_name_refused(id, trimmed(text), t) {
            None => AppModel { item_rename: None, ..self.renaming_profile(id, trimmed(text)) },
            Some(error) => AppModel {
                item_rename: match self.item_rename {
                    Some(r) if confirmed => Some(ItemRenameModel { error: Some(error), ..r }),
                    _ => None,
                },
                ..self
            },
        }
    }

    /// With the name of a group being typed.
    pub open spec fn group_rename_started(self, id: u128) -> AppModel {
        if group_place(self.config.groups, id) < self.config.groups.len() {
            AppModel {
                group_rename: Some((id, group_at(self.config, id).name, true)),
                ..self
            }
        } else {
            self
        }
    }

    /// After a name was typed for a group.
    pub open spec fn group_renamed(self, id: u128, text: Seq<char>) -> AppModel {
        AppModel {
            config: if trimmed(text).len() == 0 {
                self.config
            } else {
                group_set(
                    self.config,
                    id,
                    GroupModel { name: trimmed(text), ..group_at(self.config, id) },
                )
            },
            group_rename: None,
            ..self
        }
    }

    /// With a new group, its name being typed.
    pub open spec fn group_added(self, id: u128, name: Seq<char>, local: bool) -> AppModel {
        AppModel {
            config: ConfigModel {
                groups: self.config.groups.push(GroupModel::fresh(id, name, local)),
                ..self.config
            },
            group_rename: Some((id, name, true)),
            ..self
        }
    }

    /// With a new group that holds an item, its name being typed.
    pub open spec fn group_added_with(self, id: u128, name: Seq<char>, item: u128) -> AppModel {
        AppModel {
            config: with_new_group(self.config, id, name, item),
            group_rename: Some((id, name, true)),
            ..self
        }
    }
}

/// Where a dragged tab goes, if anywhere else.
pub open spec fn dragged_to(rects: Seq<(usize, Rect)>, i: usize, y: i32) -> Option<usize> {
    let to = slot_at(rects, y, 0);
    if to == Some(i) {
        None
    } else {
        to
    }
}

} // verus!
