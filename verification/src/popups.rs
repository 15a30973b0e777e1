//! Popups over the panes: saved commands, search, and what closing would interrupt.

use crate::app::{opt, App, AppModel, CommandsMenu, CommandsMenuModel};
use crate::config::{Config, ConfigModel, ProfileModel, SshHostModel};
use crate::editor::{trim_typed, typed};
use crate::find::{find_host, find_profile, has_host, has_profile, host_place, profile_place};
use crate::model::lemma_update;
use crate::pane::PaneId;
use crate::search::{lowered, HistorySearch, SearchModel};
use crate::strings::Strings;
use crate::text::{
    clone_all, from_chars, holds, join_with, joined, split, split_at, to_chars, views,
};
use vstd::prelude::*;

verus! {

broadcast use vstd::std_specs::hash::group_hash_axioms;

/// Where a saved command lives.
#[derive(Clone, Copy, PartialEq, Eq, Structural, Debug)]
pub enum CommandScope {
    General,
    Profile(u128),
    Host(u128),
}

/// The commands of a scope, if it exists.
pub open spec fn commands_in(c: ConfigModel, scope: CommandScope) -> Option<Seq<Seq<char>>> {
    match scope {
        CommandScope::General => Some(c.commands),
        CommandScope::Profile(id) => if profile_place(c.profiles, id) < c.profiles.len() {
            Some(c.profiles[profile_place(c.profiles, id)].commands)
        } else {
            None
        },
        CommandScope::Host(id) => if host_place(c.ssh, id) < c.ssh.len() {
            Some(c.ssh[host_place(c.ssh, id)].commands)
        } else {
            None
        },
    }
}

/// The config with other commands in a scope.
pub open spec fn with_commands(c: ConfigModel, scope: CommandScope, commands: Seq<Seq<char>>) -> ConfigModel {
    match scope {
        CommandScope::General => ConfigModel { commands, ..c },
        CommandScope::Profile(id) => {
            let i = profile_place(c.profiles, id);
            ConfigModel {
                profiles: c.profiles.update(i, ProfileModel { commands, ..c.profiles[i] }),
                ..c
            }
        },
        CommandScope::Host(id) => {
            let i = host_place(c.ssh, id);
            ConfigModel { ssh: c.ssh.update(i, SshHostModel { commands, ..c.ssh[i] }), ..c }
        },
    }
}

/// The config with one more command in a scope, unless it is there.
pub open spec fn command_added(c: ConfigModel, scope: CommandScope, command: Seq<char>) -> ConfigModel {
    match commands_in(c, scope) {
        Some(list) => if list.contains(command) {
            c
        } else {
            with_commands(c, scope, list.push(command))
        },
        None => c,
    }
}

/// The config without a command of a scope.
pub open spec fn command_removed(c: ConfigModel, scope: CommandScope, i: int) -> ConfigModel {
    match commands_in(c, scope) {
        Some(list) => if 0 <= i < list.len() {
            with_commands(c, scope, list.remove(i))
        } else {
            c
        },
        None => c,
    }
}

/// A list followed by the texts of another that it does not hold yet.
pub open spec fn merged(a: Seq<Seq<char>>, b: Seq<Seq<char>>) -> Seq<Seq<char>>
    decreases b.len(),
{
    if b.len() == 0 {
        a
    } else {
        let rest = merged(a, b.drop_last());
        if rest.contains(b.last()) {
            rest
        } else {
            rest.push(b.last())
        }
    }
}

impl AppModel {
    /// The scope of a tab's own commands: its SSH host or profile, if any, and its name.
    pub open spec fn scope(self, index: usize, untitled: Seq<char>) -> Option<
        (CommandScope, Seq<char>),
    > {
        if index >= self.tabs.len() {
            None
        } else {
            let tab = self.tabs[index as int];
            if tab.ssh is Some && has_host(self.config.ssh, tab.ssh->0) {
                let h = self.config.ssh[host_place(self.config.ssh, tab.ssh->0)];
                Some((CommandScope::Host(h.id), h.name))
            } else if tab.profile is Some && has_profile(self.config.profiles, tab.profile->0) {
                let p = self.config.profiles[profile_place(self.config.profiles, tab.profile->0)];
                Some((CommandScope::Profile(p.id), p.title(untitled)))
            } else {
                None
            }
        }
    }

    /// The commands offered in a tab: its own first, then the general ones.
    pub open spec fn offered(self, index: usize, untitled: Seq<char>) -> Seq<Seq<char>> {
        let own = match self.scope(index, untitled) {
            Some(s) => match commands_in(self.config, s.0) {
                Some(list) => list,
                None => Seq::empty(),
            },
            None => Seq::empty(),
        };
        merged(own, self.config.commands)
    }
}

impl Config {
    /// The commands of a scope; none where it does not exist.
    pub fn commands_of(&self, scope: CommandScope) -> (r: Vec<String>)
        ensures
            views(r@) == match commands_in(self@, scope) {
                Some(list) => list,
                None => Seq::empty(),
            },
    {
        match scope {
            CommandScope::General => {
                return clone_all(&self.commands);
            },
            CommandScope::Profile(id) => {
                let i = find_profile(&self.profiles, id);
                if i < self.profiles.len() {
                    assert(self@.profiles[i as int] == self.profiles@[i as int]@);
                    return clone_all(&self.profiles[i].commands);
                }
            },
            CommandScope::Host(id) => {
                let i = find_host(&self.ssh, id);
                if i < self.ssh.len() {
                    assert(self@.ssh[i as int] == self.ssh@[i as int]@);
                    return clone_all(&self.ssh[i].commands);
                }
            },
        }
        let r: Vec<String> = Vec::new();
        assert(views(r@) =~= Seq::empty());
        r
    }

    fn set_commands(&mut self, scope: CommandScope, commands: Vec<String>)
        requires
            commands_in(old(self)@, scope) is Some,
        ensures
            final(self)@ == with_commands(old(self)@, scope, views(commands@)),
    {
        match scope {
            CommandScope::General => {
                self.commands = commands;
            },
            CommandScope::Profile(id) => {
                let i = find_profile(&self.profiles, id);
                let ghost before = self.profiles@;
                self.profiles[i].commands = commands;
                proof {
                    assert(self.profiles@ =~= before.update(i as int, self.profiles@[i as int]));
                    lemma_update(before, i as int, self.profiles@[i as int]);
                }
            },
            CommandScope::Host(id) => {
                let i = find_host(&self.ssh, id);
                let ghost before = self.ssh@;
                self.ssh[i].commands = commands;
                proof {
                    assert(self.ssh@ =~= before.update(i as int, self.ssh@[i as int]));
                    lemma_update(before, i as int, self.ssh@[i as int]);
                }
            },
        }
    }

    fn scope_exists(&self, scope: CommandScope) -> (r: bool)
        ensures
            r == (commands_in(self@, scope) is Some),
    {
        match scope {
            CommandScope::General => true,
            CommandScope::Profile(id) => find_profile(&self.profiles, id) < self.profiles.len(),
            CommandScope::Host(id) => find_host(&self.ssh, id) < self.ssh.len(),
        }
    }

    /// Adds a command to a scope, unless it is there.
    pub fn add_command(&mut self, scope: CommandScope, command: String)
        ensures
            final(self)@ == command_added(old(self)@, scope, command@),
    {
        if self.scope_exists(scope) {
            let mut list = self.commands_of(scope);
            if !holds(&list, command.as_str()) {
                let ghost before = views(list@);
                list.push(command);
                assert(views(list@) =~= before.push(command@));
                self.set_commands(scope, list);
            }
        }
    }

    /// Removes a command of a scope.
    pub fn remove_command(&mut self, scope: CommandScope, i: usize)
        ensures
            final(self)@ == command_removed(old(self)@, scope, i as int),
    {
        if self.scope_exists(scope) {
            let mut list = self.commands_of(scope);
            let ghost before = views(list@);
            assert(before.len() == list@.len());
            if i < list.len() {
                list.remove(i);
                assert(views(list@) =~= before.remove(i as int));
                self.set_commands(scope, list);
            }
        }
    }
}

/// A command on one line.
pub fn one_line(command: &str) -> (r: String)
    ensures
        r@ == joined(split(command@, '\n'), " ⏎ "@),
        r@ == on_one_line(command@),
{
    let parts = split_at(&to_chars(command), '\n');
    let ghost all = split(command@, '\n');
    let mut lines: Vec<String> = Vec::new();
    let mut i: usize = 0;
    assert(views(lines@) =~= all.take(0));
    while i < parts.len()
        invariant
            i <= parts@.len(),
            crate::text::char_views(parts@) == all,
            views(lines@) == all.take(i as int),
        decreases parts.len() - i,
    {
        let ghost before = views(lines@);
        let line = from_chars(&parts[i]);
        assert(line@ == all[i as int]);
        lines.push(line);
        assert(views(lines@) =~= before.push(line@));
        assert(all.take(i + 1) =~= all.take(i as int).push(all[i as int]));
        i += 1;
    }
    assert(parts@.len() == all.len());
    assert(all.take(i as int) =~= all);
    join_with(&lines, " ⏎ ")
}

impl App {
    /// Scope of tab `index`'s own commands: its SSH host or profile, if any.
    pub fn tab_scope(&self, index: usize, t: &Strings) -> (r: Option<(CommandScope, String)>)
        ensures
            match r {
                Some(s) => self@.scope(index, t.untitled@) == Some((s.0, s.1@)),
                None => self@.scope(index, t.untitled@) is None,
            },
    {
        if index >= self.tabs.len() {
            return None;
        }
        assert(self@.tabs[index as int] == self.tabs@[index as int]@);
        if let Some(id) = self.tabs[index].ssh {
            let h = find_host(&self.config.ssh, id);
            if h < self.config.ssh.len() {
                assert(self@.config.ssh[h as int] == self.config.ssh@[h as int]@);
                return Some(
                    (CommandScope::Host(self.config.ssh[h].id), self.config.ssh[h].name.clone()),
                );
            }
        }
        if let Some(id) = self.tabs[index].profile {
            let p = find_profile(&self.config.profiles, id);
            if p < self.config.profiles.len() {
                assert(self@.config.profiles[p as int] == self.config.profiles@[p as int]@);
                return Some(
                    (
                        CommandScope::Profile(self.config.profiles[p].id),
                        self.config.profiles[p].name(t.untitled),
                    ),
                );
            }
        }
        None
    }

    /// Commands offered in tab `index`: its own first, then the general ones.
    pub fn saved_commands(&self, index: usize, t: &Strings) -> (r: Vec<String>)
        ensures
            views(r@) == self@.offered(index, t.untitled@),
    {
        let mut r = match self.tab_scope(index, t) {
            Some((scope, _)) => self.config.commands_of(scope),
            None => {
                let none: Vec<String> = Vec::new();
                assert(views(none@) =~= Seq::empty());
                none
            },
        };
        let ghost own = views(r@);
        let ghost all = self@.config.commands;
        let mut i: usize = 0;
        assert(all.take(0) =~= Seq::empty());
        while i < self.config.commands.len()
            invariant
                i <= self.config.commands@.len(),
                all == views(self.config.commands@),
                views(r@) == merged(own, all.take(i as int)),
            decreases self.config.commands.len() - i,
        {
            assert(all.take(i + 1).drop_last() =~= all.take(i as int));
            let ghost before = views(r@);
            if !holds(&r, self.config.commands[i].as_str()) {
                r.push(self.config.commands[i].clone());
                assert(views(r@) =~= before.push(all[i as int]));
            }
            i += 1;
        }
        assert(all.take(i as int) =~= all);
        r
    }

    /// Opens the commands menu of a pane of the tab shown, or closes it if it is that
    /// one. One popup at a time: it replaces the search. Gives the search that was
    /// closed.
    pub fn toggle_commands(&mut self, pane: PaneId) -> (search: Option<(usize, PaneId)>)
        ensures
            final(self)@ == ({
                let m = old(self)@.closing_search();
                AppModel {
                    commands_menu: if m.commands_menu matches Some(c) && c.pane == pane {
                        None
                    } else {
                        Some(
                            CommandsMenuModel {
                                tab: m.active,
                                pane,
                                new_command: Seq::empty(),
                                for_tab: true,
                            },
                        )
                    },
                    ..m
                }
            }),
            search == old(self)@.searched(),
            final(self)@ == old(self)@.commands_toggled(pane),
    {
        let search = self.close_search();
        let same = match &self.commands_menu {
            Some(m) => m.pane == pane,
            None => false,
        };
        self.commands_menu = if same {
            None
        } else {
            Some(CommandsMenu::new(self.active, pane))
        };
        search
    }

    /// Adds the command typed in the menu, unless it is empty: to the tab's own
    /// commands where it has some and they are chosen, else to the general ones.
    pub fn menu_add(&mut self, t: &Strings)
        ensures
            final(self)@ == old(self)@.adding_command(t.untitled@),
    {
        let mut menu = match self.commands_menu.take() {
            Some(menu) => menu,
            None => {
                return;
            },
        };
        let command = trim_typed(menu.new_command.as_str());
        let index = menu.tab;
        let for_tab = menu.for_tab;
        let ghost m = menu@;
        if command.is_some() {
            let none = String::new();
            assert(none@ =~= Seq::empty());
            menu.new_command = none;
        }
        self.commands_menu = Some(menu);
        if let Some(command) = command {
            let scope = match self.tab_scope(index, t) {
                Some((scope, _)) => if for_tab {
                    scope
                } else {
                    CommandScope::General
                },
                None => CommandScope::General,
            };
            self.config.add_command(scope, command);
        }
        assert(self@ =~= old(self)@.adding_command(t.untitled@));
    }

    /// Closes the menu once a command was written at the prompt, on Escape, or on a
    /// click elsewhere (except on the pane header, where the button toggles it).
    pub fn menu_done(
        &mut self,
        inserted: bool,
        escape: bool,
        outside: bool,
        removed: bool,
        over_header: bool,
    )
        ensures
            final(self)@ == if inserted || escape {
                AppModel { commands_menu: None, focus_terminal: true, ..old(self)@ }
            } else if outside && !removed && !over_header {
                AppModel { commands_menu: None, ..old(self)@ }
            } else {
                old(self)@
            },
            final(self)@ == old(self)@.commands_left(inserted, escape, outside, removed, over_header),
    {
        if inserted || escape {
            self.commands_menu = None;
            self.focus_terminal = true;
        } else if outside && !removed && !over_header {
            self.commands_menu = None;
        }
    }

    /// Closes the search box. Gives the pane whose highlights are to be cleared.
    pub fn close_search(&mut self) -> (r: Option<(usize, PaneId)>)
        ensures
            final(self)@ == old(self)@.closing_search(),
            r == old(self)@.searched(),
    {
        match self.history_search.take() {
            Some(s) => {
                self.focus_terminal = true;
                Some((s.tab, s.pane))
            },
            None => None,
        }
    }

    /// Opens the search box over a pane, on the displayed text (`text`) or on the commands typed there
    /// (`entries`, local panes only). The same shortcut again closes it; the other one switches mode.
    pub fn open_search(&mut self, index: usize, pane: PaneId, text: bool, entries: Vec<String>) -> (r:
        Option<(usize, PaneId)>)
        ensures
            final(self)@ == old(self)@.opening_search(index, pane, text, views(entries@)),
            r == old(self)@.search_left(index, pane, text),
    {
        // One popup at a time: the search replaces the commands menu.
        self.commands_menu = None;
        let (here, mode) = match &self.history_search {
            Some(s) => (s.tab == index && s.pane == pane, s.text),
            None => (false, false),
        };
        if here {
            if mode == text {
                return self.close_search();
            }
            self.history_search = in_mode(self.history_search.take(), text);
            return None;
        }
        let left = self.close_search();
        if index < self.tabs.len() {
            let search = self.search_in(index, pane, text, entries);
            self.history_search = Some(search);
        }
        left
    }

    fn search_in(&self, index: usize, pane: PaneId, text: bool, entries: Vec<String>) -> (r:
        HistorySearch)
        requires
            index < self.tabs@.len(),
        ensures
            r@ == self@.search_of(index, pane, text, views(entries@)),
    {
        assert(self@.tabs[index as int] == self.tabs@[index as int]@);
        let local = self.tabs[index].ssh.is_none();
        let entries = if local {
            entries
        } else {
            let none: Vec<String> = Vec::new();
            assert(views(none@) =~= Seq::empty());
            none
        };
        HistorySearch::new(index, pane, entries, text, local)
    }
}

impl AppModel {
    /// The pane that is searched.
    pub open spec fn searched(self) -> Option<(usize, PaneId)> {
        match self.history_search {
            Some(s) => Some((s.tab, s.pane)),
            None => None,
        }
    }

    /// Without the search box.
    pub open spec fn closing_search(self) -> AppModel {
        if self.history_search is Some {
            AppModel { history_search: None, focus_terminal: true, ..self }
        } else {
            self
        }
    }

    /// Whether the search box is over a pane.
    pub open spec fn searches(self, index: usize, pane: PaneId) -> bool {
        self.history_search matches Some(s) && s.tab == index && s.pane == pane
    }

    /// The pane whose highlights go when a search is opened.
    pub open spec fn search_left(self, index: usize, pane: PaneId, text: bool) -> Option<
        (usize, PaneId),
    > {
        if self.searches(index, pane) && self.history_search->0.text != text {
            None
        } else {
            self.searched()
        }
    }

    /// A new search over a pane: an SSH pane has no typed commands to search.
    pub open spec fn search_of(
        self,
        index: usize,
        pane: PaneId,
        text: bool,
        entries: Seq<Seq<char>>,
    ) -> SearchModel {
        let local = self.tabs[index as int].ssh is None;
        let list = if local {
            entries
        } else {
            Seq::empty()
        };
        SearchModel {
            tab: index,
            pane,
            query: Seq::empty(),
            entries: list,
            lower: lowered(list),
            selected: 0,
            fresh: true,
            text: text || !local,
            local,
            status: (0, 0),
        }
    }

    /// With the search box opened over a pane, closed, or in the other mode.
    pub open spec fn opening_search(
        self,
        index: usize,
        pane: PaneId,
        text: bool,
        entries: Seq<Seq<char>>,
    ) -> AppModel {
        let m = AppModel { commands_menu: None, ..self };
        if self.searches(index, pane) {
            let s = self.history_search->0;
            if s.text == text {
                m.closing_search()
            } else {
                AppModel {
                    history_search: Some(SearchModel { text, fresh: true, ..s }),
                    ..m
                }
            }
        } else if index < self.tabs.len() {
            AppModel {
                history_search: Some(self.search_of(index, pane, text, entries)),
                ..m.closing_search()
            }
        } else {
            m.closing_search()
        }
    }

    /// With the command typed in the menu added.
    pub open spec fn adding_command(self, untitled: Seq<char>) -> AppModel {
        match self.commands_menu {
            None => self,
            Some(menu) => match typed(menu.new_command) {
                None => self,
                Some(command) => {
                    let scope = match self.scope(menu.tab, untitled) {
                        Some(s) => if menu.for_tab {
                            s.0
                        } else {
                            CommandScope::General
                        },
                        None => CommandScope::General,
                    };
                    AppModel {
                        commands_menu: Some(
                            CommandsMenuModel { new_command: Seq::empty(), ..menu },
                        ),
                        config: command_added(self.config, scope, command),
                        ..self
                    }
                },
            },
        }
    }
}

fn in_mode(search: Option<HistorySearch>, text: bool) -> (r: Option<HistorySearch>)
    ensures
        opt(r) == match opt(search) {
            Some(s) => Some(SearchModel { text, fresh: true, ..s }),
            None => None,
        },
{
    match search {
        Some(mut s) => {
            s.text = text;
            s.fresh = true;
            Some(s)
        },
        None => None,
    }
}

/// A search and a commands menu are never open together.
pub proof fn law_one_popup(m: AppModel, index: usize, pane: PaneId, text: bool, entries: Seq<Seq<char>>)
    ensures
        m.opening_search(index, pane, text, entries).commands_menu is None,
        m.closing_search().history_search is None,
{
}

/// The same shortcut again closes the search.
pub proof fn law_search_toggles(m: AppModel, index: usize, pane: PaneId, text: bool, entries: Seq<Seq<char>>)
    requires
        index < m.tabs.len(),
        m.tabs[index as int].ssh is None || text,
        !m.searches(index, pane),
    ensures
        m.opening_search(index, pane, text, entries).history_search is Some,
        m.opening_search(index, pane, text, entries).opening_search(
            index,
            pane,
            text,
            entries,
        ).history_search is None,
{
}

/// A command is offered at most once, and every command saved for the tab or for all
/// is offered.
pub proof fn law_offered(own: Seq<Seq<char>>, general: Seq<Seq<char>>, x: Seq<char>)
    ensures
        merged(own, general).contains(x) == (own.contains(x) || general.contains(x)),
        own.no_duplicates() ==> merged(own, general).no_duplicates(),
    decreases general.len(),
{
    if general.len() > 0 {
        let front = general.drop_last();
        let last = general.last();
        law_offered(own, front, x);
        law_offered(own, front, last);
        let rest = merged(own, front);
        assert(general =~= front.push(last));
        assert(general.contains(x) == (front.contains(x) || x == last)) by {
            if front.contains(x) {
                let i = choose|i: int| 0 <= i < front.len() && front[i] == x;
                assert(general[i] == x);
            }
            if x == last {
                assert(general[general.len() - 1] == x);
            }
            if general.contains(x) && x != last {
                let i = choose|i: int| 0 <= i < general.len() && general[i] == x;
                assert(front[i] == x);
            }
        }
        if !rest.contains(last) {
            let all = rest.push(last);
            assert(all.contains(x) == (rest.contains(x) || x == last)) by {
                if rest.contains(x) {
                    let i = choose|i: int| 0 <= i < rest.len() && rest[i] == x;
                    assert(all[i] == x);
                }
                if x == last {
                    assert(all[all.len() - 1] == x);
                }
                if all.contains(x) && x != last {
                    let i = choose|i: int| 0 <= i < all.len() && all[i] == x;
                    assert(rest[i] == x);
                }
            }
        }
    }
}

impl AppModel {
    /// With the commands of a pane shown, or no longer.
    pub open spec fn commands_toggled(self, pane: PaneId) -> AppModel {
        let m = self.closing_search();
        AppModel {
            commands_menu: if m.commands_menu matches Some(c) && c.pane == pane {
                None
            } else {
                Some(
                    CommandsMenuModel {
                        tab: m.active,
                        pane,
                        new_command: Seq::empty(),
                        for_tab: true,
                    },
                )
            },
            ..m
        }
    }

    /// After a frame of the commands menu.
    pub open spec fn commands_left(
        self,
        inserted: bool,
        escape: bool,
        outside: bool,
        removed: bool,
        over_header: bool,
    ) -> AppModel {
        if inserted || escape {
            AppModel { commands_menu: None, focus_terminal: true, ..self }
        } else if outside && !removed && !over_header {
            AppModel { commands_menu: None, ..self }
        } else {
            self
        }
    }
}

/// A command on one line.
pub open spec fn on_one_line(command: Seq<char>) -> Seq<char> {
    joined(split(command, '\n'), " ⏎ "@)
}

} // verus!
