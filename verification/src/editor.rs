//! The profile editor, copies of profiles, and the lists of the settings pages.

use crate::app::{App, AppModel};
use crate::color::Color;
use crate::config::{Config, ConfigModel, GroupModel, Profile, ProfileModel, TabStateModel};
use crate::copies::{copy_name, free_name};
use crate::find::{find_group, find_host, find_profile, group_place, has_profile, profile_place};
use crate::ids::{fresh_id, index_of, is_random, lemma_place, place};
use crate::model::{lemma_insert, lemma_update, models, Duplicate};
use crate::pane::{Node, PaneId};
use crate::paths::str_view;
use crate::profiles::name_used;
use crate::sidebar::{group_of, is_kind};
use crate::strings::Strings;
use crate::tab::{texts, Tab, TabModel};
use crate::text::{clone_all, opt_view, opt_views, to_chars, trim_str, trimmed, views};
use vstd::prelude::*;

verus! {

broadcast use vstd::std_specs::hash::group_hash_axioms;

/// The items of one kind of a list.
pub open spec fn kind_ids(c: ConfigModel, items: Seq<u128>, local: bool) -> Seq<u128>
    decreases items.len(),
{
    if items.len() == 0 {
        items
    } else {
        let rest = kind_ids(c, items.drop_last(), local);
        if is_kind(c, items.last(), local) {
            rest.push(items.last())
        } else {
            rest
        }
    }
}

/// The sections of the first groups: those of the kind that hold items of it.
pub open spec fn group_sections(c: ConfigModel, local: bool, n: nat) -> Seq<
    (Option<Seq<char>>, Seq<u128>),
>
    decreases n,
{
    if n == 0 {
        Seq::empty()
    } else {
        let rest = group_sections(c, local, (n - 1) as nat);
        let g = c.groups[n - 1];
        let ids = kind_ids(c, g.items, local);
        if g.local == local && ids.len() > 0 {
            rest.push((Some(g.name), ids))
        } else {
            rest
        }
    }
}

/// Profiles (`local`) or SSH hosts as in the sidebar: each group in order, then
/// those without a group, whose section has a name where there are others.
pub open spec fn sections(c: ConfigModel, local: bool, no_group: Seq<char>) -> Seq<
    (Option<Seq<char>>, Seq<u128>),
> {
    let groups = group_sections(c, local, c.groups.len());
    let loose = kind_ids(c, c.ungrouped, local);
    if loose.len() == 0 {
        groups
    } else {
        groups.push(
            (
                if groups.len() > 0 {
                    Some(no_group)
                } else {
                    None
                },
                loose,
            ),
        )
    }
}

pub open spec fn section_views(s: Seq<(Option<String>, Vec<u128>)>) -> Seq<
    (Option<Seq<char>>, Seq<u128>),
> {
    s.map_values(|x: (Option<String>, Vec<u128>)| (opt_view(x.0), x.1@))
}

impl Config {
    fn ids_of_kind(&self, items: &Vec<u128>, local: bool) -> (r: Vec<u128>)
        ensures
            r@ == kind_ids(self@, items@, local),
    {
        let mut r: Vec<u128> = Vec::new();
        let mut i: usize = 0;
        assert(items@.take(0) =~= Seq::empty());
        while i < items.len()
            invariant
                i <= items@.len(),
                r@ == kind_ids(self@, items@.take(i as int), local),
            decreases items.len() - i,
        {
            assert(items@.take(i + 1).drop_last() =~= items@.take(i as int));
            let known = if local {
                find_profile(&self.profiles, items[i]) < self.profiles.len()
            } else {
                find_host(&self.ssh, items[i]) < self.ssh.len()
            };
            if known {
                r.push(items[i]);
            }
            i += 1;
        }
        assert(items@.take(i as int) =~= items@);
        r
    }

    /// Profiles (`local`) or SSH hosts as in the sidebar: each group in order, then those without a
    /// group. The section name is None when there are no groups at all (a plain list).
    pub fn grouped_ids(&self, local: bool, no_group: &str) -> (r: Vec<(Option<String>, Vec<u128>)>)
        ensures
            section_views(r@) == sections(self@, local, no_group@),
    {
        let mut r: Vec<(Option<String>, Vec<u128>)> = Vec::new();
        let mut i: usize = 0;
        assert(section_views(r@) =~= Seq::empty());
        while i < self.groups.len()
            invariant
                i <= self.groups@.len(),
                section_views(r@) == group_sections(self@, local, i as nat),
            decreases self.groups.len() - i,
        {
            assert(self@.groups[i as int] == self.groups@[i as int]@);
            let ids = self.ids_of_kind(&self.groups[i].items, local);
            if self.groups[i].local == local && ids.len() > 0 {
                let ghost before = section_views(r@);
                let name = self.groups[i].name.clone();
                let ghost added = (Some(name@), ids@);
                r.push((Some(name), ids));
                assert(section_views(r@) =~= before.push(added));
            }
            i += 1;
        }
        let loose = self.ids_of_kind(&self.ungrouped, local);
        assert(r@.len() == section_views(r@).len());
        if loose.len() > 0 {
            let ghost before = section_views(r@);
            let name = if r.len() > 0 {
                Some(no_group.to_owned())
            } else {
                None
            };
            let ghost added = (opt_view(name), loose@);
            r.push((name, loose));
            assert(section_views(r@) =~= before.push(added));
        }
        r
    }
}

/// The names that profiles have.
pub open spec fn names_in(profiles: Seq<ProfileModel>) -> Seq<Seq<char>>
    decreases profiles.len(),
{
    if profiles.len() == 0 {
        Seq::empty()
    } else {
        let rest = names_in(profiles.drop_last());
        match profiles.last().tab.name {
            Some(name) => rest.push(name),
            None => rest,
        }
    }
}

/// A list with an item right after another one, or at the end.
pub open spec fn put_after(list: Seq<u128>, id: u128, new: u128) -> Seq<u128> {
    list.insert(
        if list.contains(id) {
            place(list, id) + 1
        } else {
            list.len() as int
        },
        new,
    )
}

/// The config with a copy of a profile, right after it in the list and in the
/// sidebar.
pub open spec fn with_copy(
    c: ConfigModel,
    id: u128,
    new: u128,
    untitled: Seq<char>,
    suffix: Seq<char>,
) -> ConfigModel {
    let i = profile_place(c.profiles, id);
    if i < c.profiles.len() {
        let p = c.profiles[i];
        let name = free_name(p.title(untitled), suffix, names_in(c.profiles));
        let copy = ProfileModel {
            id: new,
            tab: TabStateModel { name: Some(name), ..p.tab },
            ..p
        };
        let g = crate::sidebar::holder(c.groups, id);
        let d = ConfigModel { profiles: c.profiles.insert(i + 1, copy), ..c };
        if g < c.groups.len() && group_place(c.groups, c.groups[g].id) < c.groups.len() {
            let at = group_place(c.groups, c.groups[g].id);
            ConfigModel {
                groups: c.groups.update(
                    at,
                    GroupModel { items: put_after(c.groups[at].items, id, new), ..c.groups[at] },
                ),
                ..d
            }
        } else {
            ConfigModel { ungrouped: put_after(c.ungrouped, id, new), ..d }
        }
    } else {
        c
    }
}

fn list_names(profiles: &Vec<Profile>) -> (r: Vec<String>)
    ensures
        views(r@) == names_in(models(profiles@)),
        r@.len() <= profiles@.len(),
{
    let ghost all = models(profiles@);
    let mut r: Vec<String> = Vec::new();
    let mut i: usize = 0;
    assert(all.take(0) =~= Seq::empty());
    assert(views(r@) =~= Seq::empty());
    while i < profiles.len()
        invariant
            i <= profiles@.len(),
            all == models(profiles@),
            views(r@) == names_in(all.take(i as int)),
            r@.len() <= i,
        decreases profiles.len() - i,
    {
        assert(all.take(i + 1).drop_last() =~= all.take(i as int));
        let ghost before = views(r@);
        if let Some(name) = &profiles[i].tab.name {
            r.push(name.clone());
            assert(views(r@) =~= before.push(name@));
        }
        i += 1;
    }
    assert(all.take(i as int) =~= all);
    r
}

impl Config {
    /// Copies a profile right after itself, the copy having a given id.
    pub fn copy_profile(&mut self, id: u128, new: u128, t: &Strings)
        requires
            old(self).profiles@.len() < usize::MAX,
        ensures
            final(self)@ == with_copy(old(self)@, id, new, t.untitled@, t.copy_suffix@),
    {
        let ghost c = self@;
        let group = self.group_of(id);
        let i = find_profile(&self.profiles, id);
        if i >= self.profiles.len() {
            return;
        }
        assert(c.profiles[i as int] == self.profiles@[i as int]@);
        let names = list_names(&self.profiles);
        let name = self.profiles[i].name(t.untitled);
        let free = copy_name(name.as_str(), t.copy_suffix, &names);
        let mut copy = self.profiles[i].duplicate();
        copy.id = new;
        copy.tab.name = Some(free);
        let ghost before = self.profiles@;
        self.profiles.insert(i + 1, copy);
        proof {
            lemma_insert(before, i + 1, copy);
        }
        let ghost d = self@;
        let g = match group {
            Some(g) => find_group(&self.groups, g),
            None => self.groups.len(),
        };
        proof {
            lemma_holder_range(c.groups, id);
        }
        if g < self.groups.len() {
            let at = index_of(&self.groups[g].items, id);
            let at: usize = if at < self.groups[g].items.len() {
                at + 1
            } else {
                self.groups[g].items.len()
            };
            let ghost groups = self.groups@;
            self.groups[g].items.insert(at, new);
            proof {
                assert(self.groups@ =~= groups.update(g as int, self.groups@[g as int]));
                lemma_update(groups, g as int, self.groups@[g as int]);
                assert(self@ =~= with_copy(c, id, new, t.untitled@, t.copy_suffix@));
            }
        } else {
            let at = index_of(&self.ungrouped, id);
            let at: usize = if at < self.ungrouped.len() {
                at + 1
            } else {
                self.ungrouped.len()
            };
            self.ungrouped.insert(at, new);
            assert(self@ =~= with_copy(c, id, new, t.untitled@, t.copy_suffix@));
        }
    }

    /// Copies a profile right after itself. Gives the id of the copy.
    pub fn duplicate_profile(&mut self, id: u128, t: &Strings) -> (new: u128)
        requires
            old(self).profiles@.len() < usize::MAX,
        ensures
            is_random(new),
            final(self)@ == with_copy(old(self)@, id, new, t.untitled@, t.copy_suffix@),
    {
        let new = fresh_id();
        self.copy_profile(id, new, t);
        new
    }
}

proof fn lemma_holder_range(groups: Seq<GroupModel>, item: u128)
    ensures
        0 <= crate::sidebar::holder(groups, item) <= groups.len(),
    decreases groups.len(),
{
    if groups.len() > 0 && !groups[0].items.contains(item) {
        lemma_holder_range(groups.drop_first(), item);
    }
}

/// A copy keeps what it was made of: the same layout, commands and color, under a
/// name that no profile has.
pub proof fn law_copy(c: ConfigModel, id: u128, new: u128, untitled: Seq<char>, suffix: Seq<char>)
    requires
        has_profile(c.profiles, id),
    ensures
        ({
            let after = with_copy(c, id, new, untitled, suffix).profiles;
            let i = profile_place(c.profiles, id);
            &&& after.len() == c.profiles.len() + 1
            &&& after[i] == c.profiles[i]
            &&& after[i + 1].id == new
            &&& after[i + 1].tab.layout == c.profiles[i].tab.layout
            &&& after[i + 1].tab.color == c.profiles[i].tab.color
            &&& after[i + 1].commands == c.profiles[i].commands
            &&& after.remove(i + 1) == c.profiles
        }),
{
    lemma_place(crate::arrange::profile_ids(c.profiles), id);
    let i = profile_place(c.profiles, id);
    assert(with_copy(c, id, new, untitled, suffix).profiles.remove(i + 1) =~= c.profiles);
}

/// "Edit profile" dialog: name, color, each pane's folder and the saved commands.
#[derive(Debug)]
pub struct ProfileEditor {
    pub id: u128,
    pub name: String,
    pub color: Option<Color>,
    /// Folder of each pane, as typed.
    pub cwds: Vec<String>,
    pub commands: Vec<String>,
    pub new_command: String,
    pub error: Option<&'static str>,
}

#[verifier::ext_equal]
pub struct ProfileEditorModel {
    pub id: u128,
    pub name: Seq<char>,
    pub color: Option<Color>,
    pub cwds: Seq<Seq<char>>,
    pub commands: Seq<Seq<char>>,
    pub new_command: Seq<char>,
    pub error: Option<Seq<char>>,
}

impl View for ProfileEditor {
    type V = ProfileEditorModel;

    open spec fn view(&self) -> ProfileEditorModel {
        ProfileEditorModel {
            id: self.id,
            name: self.name@,
            color: self.color,
            cwds: views(self.cwds@),
            commands: views(self.commands@),
            new_command: self.new_command@,
            error: str_view(self.error),
        }
    }
}

/// A text, or nothing.
pub open spec fn text_or_none(s: Option<Seq<char>>) -> Seq<char> {
    match s {
        Some(s) => s,
        None => Seq::empty(),
    }
}

/// What is typed, trimmed; nothing where that is empty.
pub open spec fn typed(s: Seq<char>) -> Option<Seq<char>> {
    if trimmed(s).len() == 0 {
        None
    } else {
        Some(trimmed(s))
    }
}

/// Trims what is typed; nothing where that is empty.
pub fn trim_typed(s: &str) -> (r: Option<String>)
    ensures
        opt_view(r) == typed(s@),
{
    let t = trim_str(s);
    if to_chars(t.as_str()).len() == 0 {
        None
    } else {
        Some(t)
    }
}

/// Commands, trimmed, without the empty ones.
pub open spec fn tidy(commands: Seq<Seq<char>>) -> Seq<Seq<char>>
    decreases commands.len(),
{
    if commands.len() == 0 {
        Seq::empty()
    } else {
        let rest = tidy(commands.drop_last());
        match typed(commands.last()) {
            Some(c) => rest.push(c),
            None => rest,
        }
    }
}

fn tidy_all(commands: &Vec<String>) -> (r: Vec<String>)
    ensures
        views(r@) == tidy(views(commands@)),
{
    let ghost all = views(commands@);
    let mut r: Vec<String> = Vec::new();
    let mut i: usize = 0;
    assert(all.take(0) =~= Seq::empty());
    assert(views(r@) =~= Seq::empty());
    while i < commands.len()
        invariant
            i <= commands@.len(),
            all == views(commands@),
            views(r@) == tidy(all.take(i as int)),
        decreases commands.len() - i,
    {
        assert(all.take(i + 1).drop_last() =~= all.take(i as int));
        let ghost before = views(r@);
        if let Some(c) = trim_typed(commands[i].as_str()) {
            r.push(c);
            assert(views(r@) =~= before.push(c@));
        }
        i += 1;
    }
    assert(all.take(i as int) =~= all);
    r
}

impl ProfileEditor {
    /// The editor of a profile.
    pub fn new(profile: &Profile) -> (r: ProfileEditor)
        ensures
            r@ == (ProfileEditorModel {
                id: profile@.id,
                name: text_or_none(profile@.tab.name),
                color: profile@.tab.color,
                cwds: profile@.tab.layout.dirs().map_values(
                    |d: Option<Seq<char>>| text_or_none(d),
                ),
                commands: profile@.commands,
                new_command: Seq::empty(),
                error: None,
            }),
            r@ == ProfileEditorModel::opened(profile@),
    {
        let dirs = profile.tab.layout.cwds();
        let ghost all = profile@.tab.layout.dirs().map_values(
            |d: Option<Seq<char>>| text_or_none(d),
        );
        let mut cwds: Vec<String> = Vec::new();
        let mut i: usize = 0;
        assert(views(cwds@) =~= all.take(0));
        while i < dirs.len()
            invariant
                i <= dirs@.len(),
                opt_views(dirs@) == profile@.tab.layout.dirs(),
                all == profile@.tab.layout.dirs().map_values(
                    |d: Option<Seq<char>>| text_or_none(d),
                ),
                views(cwds@) == all.take(i as int),
            decreases dirs.len() - i,
        {
            let ghost before = views(cwds@);
            assert(opt_views(dirs@)[i as int] == opt_view(dirs@[i as int]));
            let text = match &dirs[i] {
                Some(d) => d.clone(),
                None => String::new(),
            };
            assert(text@ =~= all[i as int]);
            cwds.push(text);
            assert(views(cwds@) =~= before.push(text@));
            assert(all.take(i + 1) =~= all.take(i as int).push(all[i as int]));
            i += 1;
        }
        assert(dirs@.len() == all.len());
        assert(all.take(i as int) =~= all);
        let name = match &profile.tab.name {
            Some(n) => n.clone(),
            None => String::new(),
        };
        assert(name@ =~= text_or_none(profile@.tab.name));
        let none = String::new();
        assert(none@ =~= Seq::empty());
        ProfileEditor {
            id: profile.id,
            name,
            color: profile.tab.color,
            cwds,
            commands: clone_all(&profile.commands),
            new_command: none,
            error: None,
        }
    }

    /// Adds the command typed, unless it is empty.
    pub fn add_command(&mut self)
        ensures
            final(self)@ == match typed(old(self)@.new_command) {
                Some(c) => ProfileEditorModel {
                    commands: old(self)@.commands.push(c),
                    new_command: Seq::empty(),
                    ..old(self)@
                },
                None => old(self)@,
            },
            final(self)@ == old(self)@.command_added(),
    {
        if let Some(c) = trim_typed(self.new_command.as_str()) {
            let ghost before = views(self.commands@);
            self.commands.push(c);
            assert(views(self.commands@) =~= before.push(c@));
            let none = String::new();
            assert(none@ =~= Seq::empty());
            self.new_command = none;
        }
    }

    /// The folders typed for the panes; nothing where a field is empty.
    pub fn typed_cwds(&self) -> (r: Vec<Option<String>>)
        ensures
            opt_views(r@) == self@.cwds.map_values(|s: Seq<char>| typed(s)),
    {
        let ghost all = self@.cwds.map_values(|s: Seq<char>| typed(s));
        let mut r: Vec<Option<String>> = Vec::new();
        let mut i: usize = 0;
        assert(opt_views(r@) =~= all.take(0));
        while i < self.cwds.len()
            invariant
                i <= self.cwds@.len(),
                all == self@.cwds.map_values(|s: Seq<char>| typed(s)),
                opt_views(r@) == all.take(i as int),
            decreases self.cwds.len() - i,
        {
            let ghost before = opt_views(r@);
            let c = trim_typed(self.cwds[i].as_str());
            assert(opt_view(c) == all[i as int]);
            r.push(c);
            assert(opt_views(r@) =~= before.push(opt_view(c)));
            assert(all.take(i + 1) =~= all.take(i as int).push(all[i as int]));
            i += 1;
        }
        assert(all.take(i as int) =~= all);
        r
    }
}

/// The directories of panes, with those set for the first leaves of a tab; none
/// forgets the one of its pane.
pub open spec fn dirs_set(
    cwds: Map<PaneId, Seq<char>>,
    leaves: Seq<PaneId>,
    dirs: Seq<Option<Seq<char>>>,
    n: nat,
) -> Map<PaneId, Seq<char>>
    decreases n,
{
    if n == 0 {
        cwds
    } else {
        let rest = dirs_set(cwds, leaves, dirs, (n - 1) as nat);
        match dirs[n - 1] {
            Some(d) => rest.insert(leaves[n - 1], d),
            None => rest.remove(leaves[n - 1]),
        }
    }
}

pub open spec fn fewer(a: nat, b: nat) -> nat {
    if a <= b {
        a
    } else {
        b
    }
}

impl Tab {
    /// Sets the directories of its panes, in layout order.
    pub fn set_dirs(&mut self, dirs: &Vec<Option<String>>)
        ensures
            final(self)@ == (TabModel {
                cwds: dirs_set(
                    old(self)@.cwds,
                    old(self)@.layout.order(),
                    opt_views(dirs@),
                    fewer(old(self)@.layout.order().len(), dirs@.len()),
                ),
                ..old(self)@
            }),
    {
        let ghost m = self@;
        let leaves = self.layout.leaves();
        let mut i: usize = 0;
        while i < leaves.len() && i < dirs.len()
            invariant
                i <= leaves@.len(),
                i <= dirs@.len(),
                leaves@ == m.layout.order(),
                self@ == (TabModel {
                    cwds: dirs_set(m.cwds, leaves@, opt_views(dirs@), i as nat),
                    ..m
                }),
            decreases leaves.len() - i,
        {
            let ghost before = self.cwds@;
            let leaf = leaves[i];
            assert(opt_views(dirs@)[i as int] == opt_view(dirs@[i as int]));
            match &dirs[i] {
                Some(d) => {
                    self.cwds.insert(leaf, d.clone());
                    assert(texts(self.cwds@) =~= texts(before).insert(leaf, d@));
                },
                None => {
                    self.cwds.remove(&leaf);
                    assert(texts(self.cwds@) =~= texts(before).remove(leaf));
                },
            }
            i += 1;
        }
    }
}

impl AppModel {
    /// With what a profile editor holds applied: to the profile, and to its tab when
    /// open (which would write its own directories back).
    pub open spec fn editing(
        self,
        e: ProfileEditorModel,
        dirs: Seq<Option<Seq<char>>>,
    ) -> AppModel {
        let m = self.renaming_profile(e.id, trimmed(e.name)).coloring_profile(e.id, e.color);
        let p = profile_place(m.config.profiles, e.id);
        let i = crate::app::profile_tab(m.tabs, e.id);
        AppModel {
            config: ConfigModel {
                profiles: if p < m.config.profiles.len() {
                    m.config.profiles.update(
                        p,
                        ProfileModel {
                            tab: TabStateModel {
                                layout: m.config.profiles[p].tab.layout.with_dirs(dirs),
                                ..m.config.profiles[p].tab
                            },
                            commands: tidy(e.commands),
                            ..m.config.profiles[p]
                        },
                    )
                } else {
                    m.config.profiles
                },
                ..m.config
            },
            tabs: if i < m.tabs.len() {
                m.tabs.update(
                    i,
                    TabModel {
                        cwds: dirs_set(
                            m.tabs[i].cwds,
                            m.tabs[i].layout.order(),
                            dirs,
                            fewer(m.tabs[i].layout.order().len(), dirs.len()),
                        ),
                        ..m.tabs[i]
                    },
                )
            } else {
                m.tabs
            },
            focus_terminal: true,
            ..m
        }
    }
}

impl App {
    /// Applies a profile editor; `dirs` are the folders typed for the panes. Gives the
    /// editor back, with the reason, where the name is refused.
    pub fn save_profile_editor(
        &mut self,
        editor: ProfileEditor,
        dirs: &Vec<Option<String>>,
        t: &Strings,
    ) -> (r: Option<ProfileEditor>)
        ensures
            ({
                let name = trimmed(editor@.name);
                if name.len() == 0 {
                    &&& final(self)@ == old(self)@
                    &&& r matches Some(e) && e@ == (ProfileEditorModel {
                        error: Some(t.host_required@),
                        ..editor@
                    })
                } else if name_used(old(self)@.config.profiles, Some(editor@.id), name) {
                    &&& final(self)@ == old(self)@
                    &&& r matches Some(e) && e@ == (ProfileEditorModel {
                        error: Some(t.name_taken@),
                        ..editor@
                    })
                } else {
                    &&& final(self)@ == old(self)@.editing(editor@, opt_views(dirs@))
                    &&& r is None
                }
            }),
            final(self)@ == old(self)@.edit_confirmed(editor@, opt_views(dirs@), *t),
            match r {
                Some(e) => e@.error is Some && e@.error == editor@.refusal(old(self)@.config.profiles, *t),
                None => editor@.refusal(old(self)@.config.profiles, *t) is None,
            },
    {
        let ghost start = self@;
        let mut editor = editor;
        match self.rename_profile(editor.id, editor.name.as_str(), t) {
            Ok(_) => {},
            Err(err) => {
                editor.error = Some(err);
                return Some(editor);
            },
        }
        self.set_profile_color(editor.id, editor.color);
        let ghost m = self@;
        let p = find_profile(&self.config.profiles, editor.id);
        if p < self.config.profiles.len() {
            let ghost before = self.config.profiles@;
            self.config.profiles[p].tab.layout.set_cwds(dirs);
            self.config.profiles[p].commands = tidy_all(&editor.commands);
            proof {
                assert(self.config.profiles@ =~= before.update(
                    p as int,
                    self.config.profiles@[p as int],
                ));
                lemma_update(before, p as int, self.config.profiles@[p as int]);
                assert(m.config.profiles[p as int] == before[p as int]@);
            }
        }
        let i = self.find_profile_tab(editor.id);
        if i < self.tabs.len() {
            let ghost before = self.tabs@;
            self.tabs[i].set_dirs(dirs);
            proof {
                assert(self.tabs@ =~= before.update(i as int, self.tabs@[i as int]));
                lemma_update(before, i as int, self.tabs@[i as int]);
                assert(m.tabs[i as int] == before[i as int]@);
            }
        }
        self.focus_terminal = true;
        assert(self@ =~= start.editing(editor@, opt_views(dirs@)));
        None
    }
}

/// The folders set in the editor are the ones that the open tab saves: the profile
/// and its tab agree on them.
pub proof fn law_edited_dirs(n: Node, cwds: Map<PaneId, Seq<char>>, dirs: Seq<Option<Seq<char>>>, i: int)
    requires
        n.order().no_duplicates(),
        dirs.len() == n.order().len(),
        0 <= i < dirs.len(),
    ensures
        crate::tab::entry(dirs_set(cwds, n.order(), dirs, dirs.len()), n.order()[i]) == dirs[i],
{
    lemma_dirs_set(cwds, n.order(), dirs, dirs.len(), i);
}

proof fn lemma_dirs_set(
    cwds: Map<PaneId, Seq<char>>,
    leaves: Seq<PaneId>,
    dirs: Seq<Option<Seq<char>>>,
    n: nat,
    i: int,
)
    requires
        leaves.no_duplicates(),
        n <= dirs.len(),
        n <= leaves.len(),
        0 <= i < n,
    ensures
        crate::tab::entry(dirs_set(cwds, leaves, dirs, n), leaves[i]) == dirs[i],
    decreases n,
{
    if i < n - 1 {
        lemma_dirs_set(cwds, leaves, dirs, (n - 1) as nat, i);
        assert(leaves[i] != leaves[n - 1]);
    }
}

impl ProfileEditorModel {
    /// The dialog of a profile as it opens.
    pub open spec fn opened(p: ProfileModel) -> ProfileEditorModel {
        ProfileEditorModel {
            id: p.id,
            name: text_or_none(p.tab.name),
            color: p.tab.color,
            cwds: p.tab.layout.dirs().map_values(|d: Option<Seq<char>>| text_or_none(d)),
            commands: p.commands,
            new_command: Seq::empty(),
            error: None,
        }
    }

    /// With the typed command in the list.
    pub open spec fn command_added(self) -> ProfileEditorModel {
        match typed(self.new_command) {
            Some(c) => ProfileEditorModel {
                commands: self.commands.push(c),
                new_command: Seq::empty(),
                ..self
            },
            None => self,
        }
    }

    /// Why the name is refused, if it is.
    pub open spec fn refusal(self, profiles: Seq<ProfileModel>, t: Strings) -> Option<Seq<char>> {
        if trimmed(self.name).len() == 0 {
            Some(t.host_required@)
        } else if name_used(profiles, Some(self.id), trimmed(self.name)) {
            Some(t.name_taken@)
        } else {
            None
        }
    }
}

impl AppModel {
    /// After the dialog of a profile was confirmed.
    pub open spec fn edit_confirmed(
        self,
        e: ProfileEditorModel,
        dirs: Seq<Option<Seq<char>>>,
        t: Strings,
    ) -> AppModel {
        if e.refusal(self.config.profiles, t) is Some {
            self
        } else {
            self.editing(e, dirs)
        }
    }
}

} // verus!
