//! What shortcuts and keys lead to, and what the window says of the tab shown.

use crate::app::{App, AppModel, CloseRequest};
use crate::pane::{Direction, PaneId, Rect};
use crate::rows::LISTED;
use crate::session::{caused, with_cause};
use crate::shortcut::ShortcutAction;
use crate::strings::Strings;
use crate::tab::{Tab, TabModel};
use crate::text::{
    char_views, decimal, from_chars, join_with, joined, lines, push_numeral, split_lines,
    substitute, substituted, to_chars, views,
};
use vstd::prelude::*;

verus! {

broadcast use vstd::std_specs::hash::group_hash_axioms;

/// What a shortcut leads to.
#[derive(Clone, Copy, PartialEq, Eq, Structural, Debug)]
pub enum Todo {
    Nothing,
    NewTab,
    Close(CloseRequest),
    /// Split the focused pane of a tab.
    Split(usize, Direction),
    /// Search a pane of a tab: its text, or its commands.
    Search(usize, PaneId, bool),
    /// Reopen a closed tab.
    Reopen(usize),
    /// Clear a pane of a tab.
    Clear(usize, PaneId),
    /// Show the settings, or hide them.
    Settings(bool),
    /// Show the files of a tab, or its terminals.
    Files(usize, bool),
}

/// What a shortcut leads to; `focused` is the pane that had the focus when the keys
/// were pressed.
pub open spec fn todo(m: AppModel, action: ShortcutAction, focused: Option<PaneId>) -> Todo {
    let shown = m.active < m.tabs.len();
    let tab = m.tabs[m.active as int];
    match action {
        ShortcutAction::NewTab => Todo::NewTab,
        ShortcutAction::ClosePane => match focused {
            Some(pane) => Todo::Close(CloseRequest::Pane(m.active, pane)),
            None => Todo::Nothing,
        },
        ShortcutAction::SplitRight => Todo::Split(m.active, Direction::Right),
        ShortcutAction::SplitDown => Todo::Split(m.active, Direction::Down),
        ShortcutAction::FindText => match focused {
            Some(pane) => Todo::Search(m.active, pane, true),
            None => Todo::Nothing,
        },
        ShortcutAction::FindCommands => match focused {
            Some(pane) => Todo::Search(m.active, pane, false),
            None => Todo::Nothing,
        },
        ShortcutAction::ReopenTab => if m.closed.len() > 0 {
            Todo::Reopen((m.closed.len() - 1) as usize)
        } else {
            Todo::Nothing
        },
        ShortcutAction::ClearPane => if shown && tab.running.contains(tab.focused) {
            Todo::Clear(m.active, tab.focused)
        } else {
            Todo::Nothing
        },
        ShortcutAction::OpenSettings => Todo::Settings(!m.settings_dialog),
        ShortcutAction::ToggleFiles => if shown && tab.ssh is Some {
            Todo::Files(m.active, !tab.show_files)
        } else {
            Todo::Nothing
        },
    }
}

/// The tab after one: the first after the last.
pub open spec fn tab_after(active: usize, count: nat) -> usize {
    if active + 1 < count {
        (active + 1) as usize
    } else {
        0
    }
}

/// The tab before one: the last before the first.
pub open spec fn tab_before(active: usize, count: nat) -> usize {
    if active > 0 {
        (active - 1) as usize
    } else {
        (count - 1) as usize
    }
}

/// The tab that a digit goes to, from 0 for the first: the last digit always goes to
/// the last tab, like browsers.
pub open spec fn digit_tab(digit: usize, count: nat) -> usize {
    if digit == 8 {
        if count > 0 {
            (count - 1) as usize
        } else {
            0
        }
    } else {
        digit
    }
}

/// What a key does to an SSH pane without a connection.
#[derive(Clone, Copy, PartialEq, Eq, Structural, Debug)]
pub enum PaneKey {
    Nothing,
    Reconnect(PaneId),
    Close(PaneId),
}

/// What Enter and Escape do to the focused pane of a tab. A closed SSH connection:
/// Enter reconnects, Escape closes the pane. Escape also gives up on a connection
/// that is still being established (`silent`: nothing was printed and it did not end).
pub open spec fn pane_key(t: TabModel, silent: bool, enter: bool, escape: bool) -> PaneKey {
    let waiting = t.ssh is Some && t.running.contains(t.focused) && silent;
    if waiting && escape {
        PaneKey::Close(t.focused)
    } else if t.dead.contains(t.focused) && enter {
        PaneKey::Reconnect(t.focused)
    } else if t.dead.contains(t.focused) && escape {
        PaneKey::Close(t.focused)
    } else {
        PaneKey::Nothing
    }
}

/// Whether a list of rectangles holds one of a pane.
pub open spec fn has_rect(rects: Seq<(PaneId, Rect)>, pane: PaneId) -> bool {
    exists|i: int| 0 <= i < rects.len() && (#[trigger] rects[i]).0 == pane
}

/// Finds a pane among the rectangles of the last frame.
pub fn finds_rect(rects: &Vec<(PaneId, Rect)>, pane: PaneId) -> (r: bool)
    ensures
        r == has_rect(rects@, pane),
{
    let mut i: usize = 0;
    while i < rects.len()
        invariant
            i <= rects@.len(),
            forall|j: int| 0 <= j < i ==> (#[trigger] rects@[j]).0 != pane,
        decreases rects.len() - i,
    {
        if rects[i].0 == pane {
            return true;
        }
        i += 1;
    }
    false
}

impl AppModel {
    /// Whether a pane of a tab is on screen.
    pub open spec fn on_screen(self, tab: usize, pane: PaneId) -> bool {
        tab == self.active && tab < self.tabs.len() && has_rect(self.tabs[tab as int].rects, pane)
    }

    /// Without the popups of panes that are not on screen.
    pub open spec fn popups_on_screen(self) -> AppModel {
        AppModel {
            history_search: match self.history_search {
                Some(s) if self.on_screen(s.tab, s.pane) => Some(s),
                _ => None,
            },
            commands_menu: match self.commands_menu {
                Some(c) if self.on_screen(c.tab, c.pane) => Some(c),
                _ => None,
            },
            ..self
        }
    }

    /// The host whose saved password can answer prompts in the tab shown (sudo...).
    pub open spec fn password_host(self) -> Option<u128> {
        if self.active < self.tabs.len() {
            match self.tabs[self.active as int].ssh {
                Some(id) => if exists|i: int|
                    0 <= i < self.config.ssh.len() && (#[trigger] self.config.ssh[i]).id == id
                        && self.config.ssh[i].password_saved {
                    Some(id)
                } else {
                    None
                },
                None => None,
            }
        } else {
            None
        }
    }
}

impl App {
    /// The focused pane of the tab shown.
    pub fn focused(&self) -> (r: Option<PaneId>)
        ensures
            r == if self@.active < self@.tabs.len() {
                Some(self@.tabs[self@.active as int].focused)
            } else {
                None
            },
            r == self@.focused_pane(),
    {
        if self.active < self.tabs.len() {
            assert(self@.tabs[self.active as int] == self.tabs@[self.active as int]@);
            Some(self.tabs[self.active].focused)
        } else {
            None
        }
    }

    /// What a shortcut leads to.
    pub fn todo(&self, action: ShortcutAction, focused: Option<PaneId>) -> (r: Todo)
        ensures
            r == todo(self@, action, focused),
    {
        let i = self.active;
        let shown = i < self.tabs.len();
        proof {
            if shown {
                assert(self@.tabs[i as int] == self.tabs@[i as int]@);
            }
            assert(self@.closed.len() == self.closed@.len());
        }
        match action {
            ShortcutAction::NewTab => Todo::NewTab,
            ShortcutAction::ClosePane => match focused {
                Some(pane) => Todo::Close(CloseRequest::Pane(i, pane)),
                None => Todo::Nothing,
            },
            ShortcutAction::SplitRight => Todo::Split(i, Direction::Right),
            ShortcutAction::SplitDown => Todo::Split(i, Direction::Down),
            ShortcutAction::FindText => match focused {
                Some(pane) => Todo::Search(i, pane, true),
                None => Todo::Nothing,
            },
            ShortcutAction::FindCommands => match focused {
                Some(pane) => Todo::Search(i, pane, false),
                None => Todo::Nothing,
            },
            ShortcutAction::ReopenTab => {
                let n = self.closed.len();
                if n > 0 {
                    Todo::Reopen(n - 1)
                } else {
                    Todo::Nothing
                }
            },
            ShortcutAction::ClearPane => {
                if shown && self.tabs[i].running.contains(&self.tabs[i].focused) {
                    Todo::Clear(i, self.tabs[i].focused)
                } else {
                    Todo::Nothing
                }
            },
            ShortcutAction::OpenSettings => Todo::Settings(!self.settings_dialog),
            ShortcutAction::ToggleFiles => {
                if shown && self.tabs[i].ssh.is_some() {
                    Todo::Files(i, !self.tabs[i].show_files)
                } else {
                    Todo::Nothing
                }
            },
        }
    }

    /// Shows the settings, or hides them.
    pub fn show_settings(&mut self, show: bool)
        ensures
            final(self)@ == (AppModel { settings_dialog: show, ..old(self)@ }),
            final(self)@ == old(self)@.with_settings_shown(show),
    {
        self.settings_dialog = show;
    }

    /// Shows the next tab: the first after the last.
    pub fn next_tab(&mut self)
        requires
            old(self).tabs@.len() > 0 ==> old(self).active < old(self).tabs@.len(),
        ensures
            final(self)@ == old(self)@.selecting(
                tab_after(old(self)@.active, old(self)@.tabs.len()),
            ),
    {
        let n = self.tabs.len();
        if n > 0 {
            let next: usize = if self.active + 1 < n {
                self.active + 1
            } else {
                0
            };
            self.select(next);
        }
    }

    /// Shows the previous tab: the last before the first.
    pub fn previous_tab(&mut self)
        requires
            old(self).tabs@.len() > 0 ==> old(self).active < old(self).tabs@.len(),
        ensures
            final(self)@ == if old(self)@.tabs.len() > 0 {
                old(self)@.selecting(tab_before(old(self)@.active, old(self)@.tabs.len()))
            } else {
                old(self)@
            },
    {
        let n = self.tabs.len();
        if n > 0 {
            let previous: usize = if self.active > 0 {
                self.active - 1
            } else {
                n - 1
            };
            self.select(previous);
        }
    }

    /// Shows the tab of a digit, from 0 for the first.
    pub fn digit(&mut self, digit: usize)
        ensures
            final(self)@ == old(self)@.selecting(digit_tab(digit, old(self)@.tabs.len())),
    {
        let n = self.tabs.len();
        let to: usize = if digit == 8 {
            if n > 0 {
                n - 1
            } else {
                0
            }
        } else {
            digit
        };
        self.select(to);
    }

    fn shows(&self, tab: usize, pane: PaneId) -> (r: bool)
        ensures
            r == self@.on_screen(tab, pane),
    {
        if tab == self.active && tab < self.tabs.len() {
            assert(self@.tabs[tab as int] == self.tabs@[tab as int]@);
            finds_rect(&self.tabs[tab].rects, pane)
        } else {
            false
        }
    }

    /// Drops the popups of panes that are not on screen.
    pub fn drop_popups(&mut self)
        ensures
            final(self)@ == old(self)@.popups_on_screen(),
    {
        let ghost m = self@;
        let search = match &self.history_search {
            Some(s) => self.shows(s.tab, s.pane),
            None => true,
        };
        let menu = match &self.commands_menu {
            Some(c) => self.shows(c.tab, c.pane),
            None => true,
        };
        if !search {
            self.history_search = None;
        }
        if !menu {
            self.commands_menu = None;
        }
        assert(self@ =~= m.popups_on_screen());
    }

    /// The host whose saved password can answer prompts in the tab shown (sudo...).
    pub fn password_host(&self) -> (r: Option<u128>)
        ensures
            r == self@.password_host(),
    {
        if self.active >= self.tabs.len() {
            return None;
        }
        assert(self@.tabs[self.active as int] == self.tabs@[self.active as int]@);
        let id = match self.tabs[self.active].ssh {
            Some(id) => id,
            None => {
                return None;
            },
        };
        let mut i: usize = 0;
        while i < self.config.ssh.len()
            invariant
                i <= self.config.ssh@.len(),
                self@.active < self@.tabs.len(),
                self@.tabs[self@.active as int].ssh == Some(id),
                forall|j: int|
                    0 <= j < i ==> !((#[trigger] self@.config.ssh[j]).id == id
                        && self@.config.ssh[j].password_saved),
            decreases self.config.ssh.len() - i,
        {
            assert(self@.config.ssh[i as int] == self.config.ssh@[i as int]@);
            if self.config.ssh[i].id == id && self.config.ssh[i].password_saved {
                return Some(id);
            }
            i += 1;
        }
        None
    }

    /// A saved password was asked for: gives what to type, or notes that there is none.
    pub fn fill_password(&mut self, password: Option<String>, t: &Strings) -> (typed: Option<String>)
        ensures
            match password {
                Some(p) => {
                    &&& typed matches Some(s) && s@ == p@ + "\r"@
                    &&& final(self)@ == (AppModel { focus_terminal: true, ..old(self)@ })
                },
                None => {
                    &&& typed is None
                    &&& final(self)@ == (AppModel {
                        error: Some(caused(t.keychain_failed@, t.password_missing@)),
                        ..old(self)@
                    })
                },
            },
            final(self)@ == old(self)@.filling_password(password is Some, *t),
            crate::text::opt_view(typed) == typed_password(crate::text::opt_view(password)),
    {
        match password {
            Some(p) => {
                let mut s = p;
                s.push_str("\r");
                self.focus_terminal = true;
                Some(s)
            },
            None => {
                self.error = Some(with_cause(t.keychain_failed, t.password_missing));
                None
            },
        }
    }
}

impl Tab {
    /// What Enter and Escape do to the focused pane.
    pub fn pane_key(&self, silent: bool, enter: bool, escape: bool) -> (r: PaneKey)
        ensures
            r == pane_key(self@, silent, enter, escape),
    {
        if self.ssh.is_some() && self.running.contains(&self.focused) && silent && escape {
            return PaneKey::Close(self.focused);
        }
        if self.dead.contains(&self.focused) {
            if enter {
                return PaneKey::Reconnect(self.focused);
            }
            if escape {
                return PaneKey::Close(self.focused);
            }
        }
        PaneKey::Nothing
    }
}

/// The name of the app: dev builds are told apart from the installed app.
pub open spec fn app_title(official: bool) -> Seq<char> {
    if official {
        "Ronnie"@
    } else {
        "Ronnie (dev)"@
    }
}

/// The title of the window, given what the tab shown is called.
pub fn window_title(official: bool, tab: Option<&str>) -> (r: String)
    ensures
        r@ == match tab {
            Some(t) => t@ + " — "@ + app_title(official),
            None => app_title(official),
        },
        r@ == titled(official, crate::paths::str_view(tab)),
{
    let name = if official {
        "Ronnie"
    } else {
        "Ronnie (dev)"
    };
    match tab {
        Some(t) => {
            let mut r = t.to_owned();
            r.push_str(" — ");
            r.push_str(name);
            r
        },
        None => name.to_owned(),
    }
}

/// The label of a directory without its first folders: `home` is whether the parts
/// are those below the home directory.
pub open spec fn dir_label(home: bool, parts: Seq<Seq<char>>, skip: int) -> Seq<char> {
    let head = if skip > 0 {
        "…"@
    } else if home {
        "~"@
    } else {
        Seq::empty()
    };
    let tail = joined(parts.skip(skip), "/"@);
    if tail.len() > 0 {
        head + "/"@ + tail
    } else if head.len() > 0 {
        head
    } else {
        "/"@
    }
}

/// The label of a directory in the strip above a pane: home as `~`, the first
/// folders skipped to fit.
pub fn label_dir(home: bool, parts: &Vec<String>, skip: usize) -> (r: String)
    requires
        skip <= parts@.len(),
    ensures
        r@ == dir_label(home, views(parts@), skip as int),
{
    let mut rest: Vec<String> = Vec::new();
    let mut i: usize = skip;
    let ghost all = views(parts@);
    assert(views(rest@) =~= all.subrange(skip as int, skip as int));
    while i < parts.len()
        invariant
            skip <= i <= parts@.len(),
            all == views(parts@),
            views(rest@) == all.subrange(skip as int, i as int),
        decreases parts.len() - i,
    {
        let ghost before = views(rest@);
        rest.push(parts[i].clone());
        assert(views(rest@) =~= before.push(all[i as int]));
        assert(all.subrange(skip as int, i + 1) =~= before.push(all[i as int]));
        i += 1;
    }
    assert(all.subrange(skip as int, i as int) =~= all.skip(skip as int));
    let tail = join_with(&rest, "/");
    proof {
        reveal_strlit("…");
        reveal_strlit("~");
    }
    let mut r = String::new();
    if skip > 0 {
        r.push_str("…");
    } else if home {
        r.push_str("~");
    }
    let ghost head = r@;
    assert(head =~= if skip > 0 {
        "…"@
    } else if home {
        "~"@
    } else {
        Seq::empty()
    });
    if to_chars(tail.as_str()).len() > 0 {
        r.push_str("/");
        r.push_str(tail.as_str());
        assert(r@ =~= head + "/"@ + tail@);
        r
    } else if skip > 0 || home {
        r
    } else {
        "/".to_owned()
    }
}

/// The labels of a directory, from the longest on: at least its last folder stays.
pub fn dir_labels(home: bool, parts: &Vec<String>) -> (r: Vec<String>)
    ensures
        r@.len() == if parts@.len() == 0 {
            1
        } else {
            parts@.len()
        },
        forall|i: int|
            0 <= i < r@.len() ==> (#[trigger] r@[i])@ == dir_label(home, views(parts@), i),
{
    let mut r: Vec<String> = Vec::new();
    r.push(label_dir(home, parts, 0));
    let mut skip: usize = 1;
    while skip < parts.len()
        invariant
            1 <= skip,
            skip <= parts@.len() || skip == 1,
            r@.len() == skip,
            forall|i: int|
                0 <= i < r@.len() ==> (#[trigger] r@[i])@ == dir_label(home, views(parts@), i),
        decreases parts.len() - skip,
    {
        r.push(label_dir(home, parts, skip));
        skip += 1;
    }
    r
}

/// What is shown while a server does not answer.
pub fn connecting(name: &str, address: &str, t: &Strings) -> (r: String)
    ensures
        r@ == substituted(substituted(t.connecting@, "{host}"@, name@), "{address}"@, address@),
        r@ == connecting_text(name@, address@, *t),
{
    proof {
        reveal_strlit("{host}");
        reveal_strlit("{address}");
    }
    let named = substitute(t.connecting, "{host}", name);
    substitute(named.as_str(), "{address}", address)
}

/// What the strip above an SSH pane says.
pub fn ssh_label(name: &str, address: &str) -> (r: String)
    ensures
        r@ == name@ + "  ·  "@ + address@,
        r@ == ssh_labelled(name@, address@),
{
    let mut r = name.to_owned();
    r.push_str("  ·  ");
    r.push_str(address);
    r
}

/// The question about pasting a text: its title, and the lines that it shows.
pub open spec fn paste_shown(text: Seq<char>) -> Seq<Seq<char>> {
    let all = lines(text);
    let first = all.take(
        if all.len() > LISTED {
            LISTED as int
        } else {
            all.len() as int
        },
    );
    if all.len() > LISTED {
        first.push("…  +"@ + decimal((all.len() - LISTED) as nat))
    } else {
        first
    }
}

/// The question about pasting a text whose lines a program would run at once.
pub fn paste_question(text: &str, t: &Strings) -> (r: (String, Vec<String>))
    ensures
        r.0@ == substituted(t.paste_title@, "{n}"@, decimal(lines(text@).len())),
        views(r.1@) == paste_shown(text@),
        r.0@ == paste_titled(text@, *t),
{
    let all = split_lines(&to_chars(text));
    let ghost whole = lines(text@);
    assert(all@.len() == whole.len());
    let mut n = String::new();
    push_numeral(&mut n, all.len() as u64, 10);
    assert(n@ =~= decimal(whole.len()));
    proof {
        reveal_strlit("{n}");
    }
    let title = substitute(t.paste_title, "{n}", n.as_str());
    let count: usize = if all.len() > LISTED {
        LISTED
    } else {
        all.len()
    };
    let mut shown: Vec<String> = Vec::new();
    let mut i: usize = 0;
    assert(views(shown@) =~= whole.take(0));
    while i < count
        invariant
            i <= count <= all@.len(),
            char_views(all@) == whole,
            views(shown@) == whole.take(i as int),
        decreases count - i,
    {
        let ghost before = views(shown@);
        let line = from_chars(&all[i]);
        assert(line@ == whole[i as int]);
        shown.push(line);
        assert(views(shown@) =~= before.push(line@));
        assert(whole.take(i + 1) =~= whole.take(i as int).push(whole[i as int]));
        i += 1;
    }
    if all.len() > LISTED {
        let ghost before = views(shown@);
        let mut more = String::new();
        more.push_str("…  +");
        push_numeral(&mut more, (all.len() - LISTED) as u64, 10);
        assert(more@ =~= "…  +"@ + decimal((whole.len() - LISTED) as nat));
        shown.push(more);
        assert(views(shown@) =~= before.push(more@));
    }
    (title, shown)
}

/// The state of an update.
#[derive(Debug)]
pub enum Update {
    Idle,
    Checking,
    UpToDate,
    /// A release can be installed: its version.
    Available(String),
    Installing(String),
    Installed(String),
    Failed(String),
}

/// How long after one look for a release the next one comes, in milliseconds: six hours.
pub const UPDATE_INTERVAL: u64 = 21_600_000;

/// Whether it is time to look for a release. Only published builds update themselves (a
/// local one would replace itself with the release), unless it is asked for.
pub open spec fn is_update_due(
    auto_update: bool,
    published: bool,
    forced: bool,
    last: Option<u64>,
    now: u64,
) -> bool {
    auto_update && (published || forced) && (last is None || now - last->0 >= UPDATE_INTERVAL)
}

/// Decides whether to look for a release: at startup, where none was looked for yet, then
/// every few hours. Times are in milliseconds on one clock. Gives the time of the last
/// look as well.
pub fn update_due(auto_update: bool, published: bool, forced: bool, last: Option<u64>, now: u64) -> (r:
    (bool, Option<u64>))
    ensures
        r.0 == is_update_due(auto_update, published, forced, last, now),
        r.1 == if r.0 {
            Some(now)
        } else {
            last
        },
        r.1 == last_looked(r.0, last, now),
{
    let time = match last {
        Some(at) => now >= at && now - at >= UPDATE_INTERVAL,
        None => true,
    };
    if auto_update && (published || forced) && time {
        (true, Some(now))
    } else {
        (false, last)
    }
}

/// After a look for a release no other one comes before the interval is over, and one
/// comes then.
pub proof fn law_update_interval(published: bool, forced: bool, last: u64, now: u64)
    ensures
        now - last < UPDATE_INTERVAL ==> !is_update_due(true, published, forced, Some(last), now),
        now - last >= UPDATE_INTERVAL && (published || forced) ==> is_update_due(
            true,
            published,
            forced,
            Some(last),
            now,
        ),
{
}

/// What the invitation to update says.
#[derive(Debug)]
pub struct UpdateCard {
    pub title: String,
    pub detail: Option<String>,
    /// It has buttons.
    pub buttons: bool,
}

/// A text with a version.
pub open spec fn versioned(text: Seq<char>, v: Seq<char>) -> Seq<char> {
    substituted(text, "{v}"@, v)
}

/// What the invitation to update says: its title, the error and whether it has
/// buttons. None where it is not shown: it was put off, or nothing is to be said.
pub open spec fn card_text(u: Update, dismissed: bool, attempted: bool, t: Strings) -> Option<
    (Seq<char>, Option<Seq<char>>, bool),
> {
    match u {
        Update::Available(v) => if dismissed {
            None
        } else {
            Some((versioned(t.update_available@, v@), None, true))
        },
        Update::Installing(v) => Some((versioned(t.installing@, v@), None, false)),
        Update::Installed(v) => Some((versioned(t.update_installed@, v@), None, true)),
        Update::Failed(e) => if attempted {
            Some((t.update_failed@, Some(e@), true))
        } else {
            None
        },
        _ => None,
    }
}

/// The invitation to install a new release (then to restart), if one is shown.
pub fn update_card(u: &Update, dismissed: bool, attempted: bool, t: &Strings) -> (r: Option<
    UpdateCard,
>)
    ensures
        match r {
            Some(c) => card_text(*u, dismissed, attempted, *t) == Some(
                (c.title@, crate::text::opt_view(c.detail), c.buttons),
            ),
            None => card_text(*u, dismissed, attempted, *t) is None,
        },
{
    proof {
        reveal_strlit("{v}");
    }
    match u {
        Update::Available(v) => {
            if dismissed {
                None
            } else {
                Some(
                    UpdateCard {
                        title: substitute(t.update_available, "{v}", v.as_str()),
                        detail: None,
                        buttons: true,
                    },
                )
            }
        },
        Update::Installing(v) => Some(
            UpdateCard {
                title: substitute(t.installing, "{v}", v.as_str()),
                detail: None,
                buttons: false,
            },
        ),
        Update::Installed(v) => Some(
            UpdateCard {
                title: substitute(t.update_installed, "{v}", v.as_str()),
                detail: None,
                buttons: true,
            },
        ),
        Update::Failed(e) => {
            if attempted {
                Some(
                    UpdateCard {
                        title: t.update_failed.to_owned(),
                        detail: Some(e.clone()),
                        buttons: true,
                    },
                )
            } else {
                None
            }
        },
        Update::Idle => None,
        Update::Checking => None,
        Update::UpToDate => None,
    }
}

/// What a button of the invitation asks for.
#[derive(Clone, Copy, PartialEq, Eq, Structural, Debug)]
pub enum CardClick {
    Nothing,
    /// Install the release.
    Install,
    /// Close this app and start the updated one.
    Restart,
    /// Look for a release again.
    Check,
}

/// What the first button of the invitation does: what it asks for, then whether an
/// install was attempted.
pub fn card_accept(u: &Update, attempted: bool) -> (r: (CardClick, bool))
    ensures
        r == match *u {
            Update::Available(_) => (CardClick::Install, true),
            Update::Installed(_) => (CardClick::Restart, attempted),
            Update::Failed(_) => (CardClick::Check, attempted),
            _ => (CardClick::Nothing, attempted),
        },
        r == card_accepted(*u, attempted),
{
    match u {
        Update::Available(_) => (CardClick::Install, true),
        Update::Installed(_) => (CardClick::Restart, attempted),
        Update::Failed(_) => (CardClick::Check, attempted),
        _ => (CardClick::Nothing, attempted),
    }
}

/// What the second button of the invitation does: whether it is put off, and whether
/// an install was attempted.
pub fn card_later(u: &Update, dismissed: bool, attempted: bool) -> (r: (bool, bool))
    ensures
        r == match *u {
            Update::Available(_) => (true, attempted),
            Update::Installed(_) => (true, attempted),
            Update::Failed(_) => (dismissed, false),
            _ => (dismissed, attempted),
        },
        r == card_put_off(*u, dismissed, attempted),
{
    match u {
        Update::Available(_) => (true, attempted),
        Update::Installed(_) => (true, attempted),
        Update::Failed(_) => (dismissed, false),
        _ => (dismissed, attempted),
    }
}

/// Going to the next tab and back shows the same tab.
pub proof fn law_next_previous(active: usize, count: nat)
    requires
        active < count,
        count <= usize::MAX,
    ensures
        tab_after(active, count) < count,
        tab_before(active, count) < count,
        tab_before(tab_after(active, count), count) == active,
        tab_after(tab_before(active, count), count) == active,
{
}

/// The next tab is the one after, counted round.
pub proof fn law_tabs_go_round(active: usize, count: nat)
    requires
        active < count,
        count <= usize::MAX,
    ensures
        tab_after(active, count) == (active + 1) % count as int,
        tab_before(active, count) == (active + count - 1) % count as int,
{
    let n = count as int;
    if active + 1 < n {
        vstd::arithmetic::div_mod::lemma_small_mod((active + 1) as nat, count);
    } else {
        vstd::arithmetic::div_mod::lemma_mod_self_0(n);
    }
    if active > 0 {
        vstd::arithmetic::div_mod::lemma_small_mod((active - 1) as nat, count);
        vstd::arithmetic::div_mod::lemma_mod_add_multiples_vanish(active - 1, n);
        assert((n + (active - 1)) % n == (active - 1) % n);
    } else {
        vstd::arithmetic::div_mod::lemma_small_mod((count - 1) as nat, count);
    }
}

impl AppModel {
    /// The pane that has the focus.
    pub open spec fn focused_pane(self) -> Option<PaneId> {
        if self.active < self.tabs.len() {
            Some(self.tabs[self.active as int].focused)
        } else {
            None
        }
    }

    /// With the settings shown, or not.
    pub open spec fn with_settings_shown(self, show: bool) -> AppModel {
        AppModel { settings_dialog: show, ..self }
    }

    /// After the saved password was asked for.
    pub open spec fn filling_password(self, found: bool, t: Strings) -> AppModel {
        if found {
            AppModel { focus_terminal: true, ..self }
        } else {
            AppModel { error: Some(caused(t.keychain_failed@, t.password_missing@)), ..self }
        }
    }
}

/// What is typed for a password.
pub open spec fn typed_password(password: Option<Seq<char>>) -> Option<Seq<char>> {
    match password {
        Some(p) => Some(p + "\r"@),
        None => None,
    }
}

/// The title of the window.
pub open spec fn titled(official: bool, tab: Option<Seq<char>>) -> Seq<char> {
    match tab {
        Some(t) => t + " — "@ + app_title(official),
        None => app_title(official),
    }
}

/// What a pane shows while it connects.
pub open spec fn connecting_text(name: Seq<char>, address: Seq<char>, t: Strings) -> Seq<char> {
    substituted(substituted(t.connecting@, "{host}"@, name), "{address}"@, address)
}

/// How an ssh pane is labelled.
pub open spec fn ssh_labelled(name: Seq<char>, address: Seq<char>) -> Seq<char> {
    name + "  ·  "@ + address
}

/// What the first button of the update card does, and whether an update is under way.
pub open spec fn card_accepted(u: Update, attempted: bool) -> (CardClick, bool) {
    match u {
        Update::Available(_) => (CardClick::Install, true),
        Update::Installed(_) => (CardClick::Restart, attempted),
        Update::Failed(_) => (CardClick::Check, attempted),
        _ => (CardClick::Nothing, attempted),
    }
}

/// What putting the update card off leaves: whether it is dismissed, and whether an update
/// is under way.
pub open spec fn card_put_off(u: Update, dismissed: bool, attempted: bool) -> (bool, bool) {
    match u {
        Update::Available(_) => (true, attempted),
        Update::Installed(_) => (true, attempted),
        Update::Failed(_) => (dismissed, false),
        _ => (dismissed, attempted),
    }
}

/// When the last look for an update was.
pub open spec fn last_looked(due: bool, last: Option<u64>, now: u64) -> Option<u64> {
    if due {
        Some(now)
    } else {
        last
    }
}

/// The title of the question about pasting a text.
pub open spec fn paste_titled(text: Seq<char>, t: Strings) -> Seq<char> {
    substituted(t.paste_title@, "{n}"@, decimal(lines(text).len()))
}

} // verus!
