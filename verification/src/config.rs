//! What is saved to disk: the config (settings and profiles, one JSON file the user can edit or export)
//! and the session (open and recently closed tabs, window), which is state rather than config.

use crate::color::Color;
use crate::model::{all_equal, duplicate_all, models, same_all, Duplicate, Same};
use crate::pane::{Axis, Real};
use crate::shortcut::{Shortcuts, ShortcutsModel};
use crate::text::{clone_all, clone_opt, opt_view, same_lists, same_opt, same_str, views};
use vstd::prelude::*;

verus! {

/// How many closed tabs are remembered.
pub const MAX_CLOSED: usize = 15;

/// A tab's split layout, with what each pane runs.
#[derive(Debug)]
pub enum Layout {
    Pane {
        cwd: Option<String>,
        /// Identifies the pane's command history file (see `shell`).
        history: Option<u128>,
    },
    Split { axis: Axis, ratio: Real, a: Box<Layout>, b: Box<Layout> },
}

/// A layout, its directories as texts.
#[verifier::ext_equal]
pub enum LayoutModel {
    Pane { cwd: Option<Seq<char>>, history: Option<u128> },
    Split { axis: Axis, ratio: Real, a: Box<LayoutModel>, b: Box<LayoutModel> },
}

impl Layout {
    pub open spec fn model(self) -> LayoutModel
        decreases self,
    {
        match self {
            Layout::Pane { cwd, history } => LayoutModel::Pane { cwd: opt_view(cwd), history },
            Layout::Split { axis, ratio, a, b } => LayoutModel::Split {
                axis,
                ratio,
                a: Box::new(a.model()),
                b: Box::new(b.model()),
            },
        }
    }
}

impl View for Layout {
    type V = LayoutModel;

    open spec fn view(&self) -> LayoutModel {
        self.model()
    }
}

impl LayoutModel {
    /// How many panes there are.
    pub open spec fn count(self) -> nat
        decreases self,
    {
        match self {
            LayoutModel::Pane { .. } => 1,
            LayoutModel::Split { a, b, .. } => a.count() + b.count(),
        }
    }

    /// The directories of the panes, in order.
    pub open spec fn dirs(self) -> Seq<Option<Seq<char>>>
        decreases self,
    {
        match self {
            LayoutModel::Pane { cwd, .. } => seq![cwd],
            LayoutModel::Split { a, b, .. } => a.dirs() + b.dirs(),
        }
    }

    /// The history ids of the panes that have one, in order.
    pub open spec fn history_ids(self) -> Seq<u128>
        decreases self,
    {
        match self {
            LayoutModel::Pane { history: Some(h), .. } => seq![h],
            LayoutModel::Pane { history: None, .. } => Seq::empty(),
            LayoutModel::Split { a, b, .. } => a.history_ids() + b.history_ids(),
        }
    }

    /// The layout whose panes have the given directories, in order; those past
    /// the end of the list keep theirs.
    pub open spec fn with_dirs(self, dirs: Seq<Option<Seq<char>>>) -> LayoutModel
        decreases self,
    {
        match self {
            LayoutModel::Pane { cwd, history } => if dirs.len() > 0 {
                LayoutModel::Pane { cwd: dirs[0], history }
            } else {
                self
            },
            LayoutModel::Split { axis, ratio, a, b } => {
                let rest = if a.count() <= dirs.len() {
                    dirs.skip(a.count() as int)
                } else {
                    Seq::empty()
                };
                LayoutModel::Split {
                    axis,
                    ratio,
                    a: Box::new(a.with_dirs(dirs)),
                    b: Box::new(b.with_dirs(rest)),
                }
            },
        }
    }

    /// Whether two layouts are equal, ratios being compared as numbers.
    pub open spec fn equals(self, other: LayoutModel) -> bool
        decreases self,
    {
        match (self, other) {
            (
                LayoutModel::Pane { cwd, history },
                LayoutModel::Pane { cwd: cwd2, history: history2 },
            ) => cwd == cwd2 && history == history2,
            (
                LayoutModel::Split { axis, ratio, a, b },
                LayoutModel::Split { axis: axis2, ratio: ratio2, a: a2, b: b2 },
            ) => axis == axis2 && ratio.equals(ratio2) && a.equals(*a2) && b.equals(*b2),
            _ => false,
        }
    }
}

/// A layout has as many directories as panes, and at least one.
pub proof fn law_dirs_count(l: LayoutModel)
    ensures
        l.dirs().len() == l.count(),
        l.count() >= 1,
    decreases l,
{
    if let LayoutModel::Split { a, b, .. } = l {
        law_dirs_count(*a);
        law_dirs_count(*b);
    }
}

/// Setting the directories that a layout already has changes nothing.
pub proof fn law_set_own_dirs(l: LayoutModel, more: Seq<Option<Seq<char>>>)
    ensures
        l.with_dirs(l.dirs() + more) == l,
    decreases l,
{
    law_dirs_count(l);
    match l {
        LayoutModel::Pane { cwd, history } => {
            assert((l.dirs() + more)[0] == cwd);
        },
        LayoutModel::Split { axis, ratio, a, b } => {
            law_dirs_count(*a);
            law_dirs_count(*b);
            law_set_own_dirs(*a, b.dirs() + more);
            assert(l.dirs() + more =~= a.dirs() + (b.dirs() + more));
            assert((l.dirs() + more).skip(a.count() as int) =~= b.dirs() + more);
            law_set_own_dirs(*b, more);
        },
    }
}

/// The directories that were set are the ones that are read back. Where there are
/// fewer of them than panes, the last panes keep theirs.
pub proof fn law_set_dirs(l: LayoutModel, dirs: Seq<Option<Seq<char>>>)
    ensures
        dirs.len() >= l.count() ==> l.with_dirs(dirs).dirs() == dirs.take(l.count() as int),
        dirs.len() <= l.count() ==> l.with_dirs(dirs).dirs() == dirs + l.dirs().skip(
            dirs.len() as int,
        ),
    decreases l,
{
    law_dirs_count(l);
    match l {
        LayoutModel::Pane { cwd, history } => {
            if dirs.len() > 0 {
                assert(l.with_dirs(dirs).dirs() =~= dirs.take(1));
                if dirs.len() == 1 {
                    assert(dirs + l.dirs().skip(1) =~= dirs.take(1));
                }
            } else {
                assert(dirs + l.dirs().skip(0) =~= l.dirs());
            }
        },
        LayoutModel::Split { axis, ratio, a, b } => {
            let n = a.count() as int;
            law_dirs_count(*a);
            law_dirs_count(*b);
            law_set_dirs(*a, dirs);
            if n <= dirs.len() {
                law_set_dirs(*b, dirs.skip(n));
                if dirs.len() >= l.count() {
                    assert(l.with_dirs(dirs).dirs() =~= dirs.take(l.count() as int));
                }
                if dirs.len() <= l.count() {
                    assert(l.with_dirs(dirs).dirs() =~= dirs + l.dirs().skip(dirs.len() as int));
                }
            } else {
                law_set_dirs(*b, Seq::empty());
                assert(Seq::<Option<Seq<char>>>::empty() + b.dirs().skip(0) =~= b.dirs());
                assert(l.with_dirs(dirs).dirs() =~= dirs + l.dirs().skip(dirs.len() as int));
            }
        },
    }
}

/// Whether two layouts have the same splits, at the same places, and the same histories:
/// only the directories may differ.
pub open spec fn same_shape(l: LayoutModel, other: LayoutModel) -> bool
    decreases l,
{
    match (l, other) {
        (
            LayoutModel::Pane { history, .. },
            LayoutModel::Pane { history: history2, .. },
        ) => history == history2,
        (
            LayoutModel::Split { axis, ratio, a, b },
            LayoutModel::Split { axis: axis2, ratio: ratio2, a: a2, b: b2 },
        ) => axis == axis2 && ratio == ratio2 && same_shape(*a, *a2) && same_shape(*b, *b2),
        _ => false,
    }
}

/// Setting directories changes nothing else, however many are given.
pub proof fn law_set_dirs_keeps(l: LayoutModel, dirs: Seq<Option<Seq<char>>>)
    ensures
        same_shape(l, l.with_dirs(dirs)),
        l.with_dirs(dirs).count() == l.count(),
        l.with_dirs(dirs).history_ids() == l.history_ids(),
    decreases l,
{
    if let LayoutModel::Split { axis, ratio, a, b } = l {
        law_set_dirs_keeps(*a, dirs);
        law_set_dirs_keeps(
            *b,
            if a.count() <= dirs.len() {
                dirs.skip(a.count() as int)
            } else {
                Seq::empty()
            },
        );
    }
}

impl Layout {
    /// Number of panes.
    pub fn panes(&self) -> (r: usize)
        requires
            self@.count() <= usize::MAX,
        ensures
            r == self@.count(),
        decreases self,
    {
        match self {
            Layout::Pane { .. } => 1,
            Layout::Split { a, b, .. } => a.panes() + b.panes(),
        }
    }

    /// Directories of its panes, in order.
    pub fn cwds(&self) -> (r: Vec<Option<String>>)
        ensures
            crate::text::opt_views(r@) == self@.dirs(),
        decreases self,
    {
        match self {
            Layout::Pane { cwd, .. } => {
                let mut all: Vec<Option<String>> = Vec::new();
                all.push(clone_opt(cwd));
                assert(crate::text::opt_views(all@) =~= self@.dirs());
                all
            },
            Layout::Split { a, b, .. } => {
                let mut all = a.cwds();
                let mut rest = b.cwds();
                let ghost (x, y) = (all@, rest@);
                all.append(&mut rest);
                assert(crate::text::opt_views(x + y) =~= crate::text::opt_views(x)
                    + crate::text::opt_views(y));
                all
            },
        }
    }

    fn set_from(&mut self, cwds: &Vec<Option<String>>, from: usize) -> (next: usize)
        requires
            from <= cwds@.len(),
        ensures
            final(self)@ == old(self)@.with_dirs(
                crate::text::opt_views(cwds@).skip(from as int),
            ),
            next == if from + old(self)@.count() <= cwds@.len() {
                (from + old(self)@.count()) as int
            } else {
                cwds@.len() as int
            },
        decreases *old(self),
    {
        let ghost all = crate::text::opt_views(cwds@);
        proof {
            law_dirs_count(self@);
        }
        match self {
            Layout::Pane { cwd, .. } => {
                if from < cwds.len() {
                    *cwd = clone_opt(&cwds[from]);
                    assert(all.skip(from as int)[0] == opt_view(cwds@[from as int]));
                    from + 1
                } else {
                    from
                }
            },
            Layout::Split { a, b, .. } => {
                let ghost n = a@.count();
                proof {
                    law_dirs_count(a@);
                    law_dirs_count(b@);
                    if from + n <= all.len() {
                        assert(all.skip(from as int).skip(n as int) =~= all.skip(from + n));
                    } else {
                        assert(all.skip(all.len() as int) =~= Seq::empty());
                    }
                }
                let mid = a.set_from(cwds, from);
                b.set_from(cwds, mid)
            },
        }
    }

    /// Sets the directories of its panes, in order (as returned by `cwds`).
    pub fn set_cwds(&mut self, cwds: &Vec<Option<String>>)
        ensures
            final(self)@ == old(self)@.with_dirs(crate::text::opt_views(cwds@)),
    {
        proof {
            assert(crate::text::opt_views(cwds@).skip(0) =~= crate::text::opt_views(cwds@));
        }
        self.set_from(cwds, 0);
    }

    /// Adds the history ids of its panes to a list.
    pub fn histories(&self, out: &mut Vec<u128>)
        ensures
            final(out)@ == old(out)@ + self@.history_ids(),
        decreases self,
    {
        match self {
            Layout::Pane { history, .. } => {
                if let Some(h) = history {
                    out.push(*h);
                }
                assert(out@ =~= old(out)@ + self@.history_ids());
            },
            Layout::Split { a, b, .. } => {
                a.histories(out);
                b.histories(out);
                assert(out@ =~= old(out)@ + self@.history_ids());
            },
        }
    }

    /// Compares two layouts.
    pub fn same(&self, other: &Layout) -> (r: bool)
        ensures
            r == self@.equals(other@),
        decreases self,
    {
        match (self, other) {
            (
                Layout::Pane { cwd, history },
                Layout::Pane { cwd: cwd2, history: history2 },
            ) => same_opt(cwd, cwd2) && *history == *history2,
            (
                Layout::Split { axis, ratio, a, b },
                Layout::Split { axis: axis2, ratio: ratio2, a: a2, b: b2 },
            ) => *axis == *axis2 && ratio.same(*ratio2) && a.same(a2) && b.same(b2),
            _ => false,
        }
    }
}

impl Duplicate for Layout {
    fn duplicate(&self) -> (r: Self)
        decreases self,
    {
        match self {
            Layout::Pane { cwd, history } => Layout::Pane { cwd: clone_opt(cwd), history: *history },
            Layout::Split { axis, ratio, a, b } => Layout::Split {
                axis: *axis,
                ratio: *ratio,
                a: Box::new(a.duplicate()),
                b: Box::new(b.duplicate()),
            },
        }
    }
}

impl Default for Layout {
    fn default() -> (r: Self)
        ensures
            r@ == (LayoutModel::Pane { cwd: None, history: None }),
    {
        Layout::Pane { cwd: None, history: None }
    }
}

/// Everything needed to rebuild a tab.
#[derive(Debug)]
pub struct TabState {
    pub name: Option<String>,
    pub color: Option<Color>,
    pub layout: Layout,
    /// Index of the focused pane, in layout order.
    pub focused: usize,
}

#[verifier::ext_equal]
pub struct TabStateModel {
    pub name: Option<Seq<char>>,
    pub color: Option<Color>,
    pub layout: LayoutModel,
    pub focused: usize,
}

impl View for TabState {
    type V = TabStateModel;

    open spec fn view(&self) -> TabStateModel {
        TabStateModel {
            name: opt_view(self.name),
            color: self.color,
            layout: self.layout@,
            focused: self.focused,
        }
    }
}

impl TabStateModel {
    pub open spec fn equals(self, other: TabStateModel) -> bool {
        &&& self.name == other.name
        &&& self.color == other.color
        &&& self.layout.equals(other.layout)
        &&& self.focused == other.focused
    }
}

impl TabState {
    /// Compares two states.
    pub fn same(&self, other: &TabState) -> (r: bool)
        ensures
            r == self@.equals(other@),
    {
        same_opt(&self.name, &other.name) && self.color == other.color && self.layout.same(
            &other.layout,
        ) && self.focused == other.focused
    }
}

impl Duplicate for TabState {
    fn duplicate(&self) -> (r: Self) {
        TabState {
            name: clone_opt(&self.name),
            color: self.color,
            layout: self.layout.duplicate(),
            focused: self.focused,
        }
    }
}

impl Default for TabState {
    fn default() -> (r: Self)
        ensures
            r@ == (TabStateModel {
                name: None,
                color: None,
                layout: LayoutModel::Pane { cwd: None, history: None },
                focused: 0,
            }),
    {
        TabState { name: None, color: None, layout: Layout::default(), focused: 0 }
    }
}

/// Whether a focused index is left out of the file.
pub fn is_zero(v: &usize) -> (r: bool)
    ensures
        r == (*v == 0),
{
    *v == 0
}

/// A field written by another version: its name and its value as JSON.
#[derive(Debug)]
pub struct Field {
    pub name: String,
    pub json: String,
}

impl View for Field {
    type V = (Seq<char>, Seq<char>);

    open spec fn view(&self) -> (Seq<char>, Seq<char>) {
        (self.name@, self.json@)
    }
}

impl Duplicate for Field {
    fn duplicate(&self) -> (r: Self) {
        Field { name: self.name.clone(), json: self.json.clone() }
    }
}

/// A saved tab that can be opened again at any time.
#[derive(Debug)]
pub struct Profile {
    pub id: u128,
    pub tab: TabState,
    /// Commands saved for this profile, written at the prompt on demand.
    pub commands: Vec<String>,
    /// Fields written by another version of Ronnie: kept as they are, so that running an older or newer
    /// version never erases them.
    pub extra: Vec<Field>,
}

#[verifier::ext_equal]
pub struct ProfileModel {
    pub id: u128,
    pub tab: TabStateModel,
    pub commands: Seq<Seq<char>>,
    pub extra: Seq<(Seq<char>, Seq<char>)>,
}

impl View for Profile {
    type V = ProfileModel;

    open spec fn view(&self) -> ProfileModel {
        ProfileModel {
            id: self.id,
            tab: self.tab@,
            commands: views(self.commands@),
            extra: models(self.extra@),
        }
    }
}

impl ProfileModel {
    /// The name shown for the profile.
    pub open spec fn title(self, untitled: Seq<char>) -> Seq<char> {
        match self.tab.name {
            Some(name) => name,
            None => untitled,
        }
    }
}

impl Profile {
    /// The name shown for the profile.
    pub fn name(&self, untitled: &str) -> (r: String)
        ensures
            r@ == self@.title(untitled@),
    {
        match &self.tab.name {
            Some(name) => name.clone(),
            None => untitled.to_owned(),
        }
    }
}

impl Duplicate for Profile {
    fn duplicate(&self) -> (r: Self) {
        Profile {
            id: self.id,
            tab: self.tab.duplicate(),
            commands: clone_all(&self.commands),
            extra: duplicate_all(&self.extra),
        }
    }
}

/// How an SSH connection authenticates.
#[derive(Clone, Copy, PartialEq, Eq, Structural, Debug)]
pub enum SshAuth {
    Auto,
    Password,
    Ask,
    Interactive,
    Key,
}

/// An SSH connection. Its password is in the keychain, not here.
#[derive(Debug)]
pub struct SshHost {
    pub id: u128,
    pub name: String,
    pub host: String,
    pub user: Option<String>,
    pub port: Option<u16>,
    pub auth: Option<SshAuth>,
    pub identity_file: Option<String>,
    pub jump: Option<String>,
    pub color: Option<Color>,
    /// Group to put an imported host in, by name; cleared once it is placed.
    pub group: Option<String>,
    pub password_saved: bool,
    pub imported: bool,
    pub commands: Vec<String>,
    /// Folders last shown by the file manager.
    pub sftp_local: Option<String>,
    pub sftp_remote: Option<String>,
}

#[verifier::ext_equal]
pub struct SshHostModel {
    pub id: u128,
    pub name: Seq<char>,
    pub host: Seq<char>,
    pub user: Option<Seq<char>>,
    pub port: Option<u16>,
    pub auth: Option<SshAuth>,
    pub identity_file: Option<Seq<char>>,
    pub jump: Option<Seq<char>>,
    pub color: Option<Color>,
    pub group: Option<Seq<char>>,
    pub password_saved: bool,
    pub imported: bool,
    pub commands: Seq<Seq<char>>,
    pub sftp_local: Option<Seq<char>>,
    pub sftp_remote: Option<Seq<char>>,
}

impl View for SshHost {
    type V = SshHostModel;

    open spec fn view(&self) -> SshHostModel {
        SshHostModel {
            id: self.id,
            name: self.name@,
            host: self.host@,
            user: opt_view(self.user),
            port: self.port,
            auth: self.auth,
            identity_file: opt_view(self.identity_file),
            jump: opt_view(self.jump),
            color: self.color,
            group: opt_view(self.group),
            password_saved: self.password_saved,
            imported: self.imported,
            commands: views(self.commands@),
            sftp_local: opt_view(self.sftp_local),
            sftp_remote: opt_view(self.sftp_remote),
        }
    }
}

impl SshHostModel {
    /// A host with nothing filled in.
    pub open spec fn blank(id: u128) -> SshHostModel {
        SshHostModel {
            id,
            name: Seq::empty(),
            host: Seq::empty(),
            user: None,
            port: None,
            auth: None,
            identity_file: None,
            jump: None,
            color: None,
            group: None,
            password_saved: false,
            imported: false,
            commands: Seq::empty(),
            sftp_local: None,
            sftp_remote: None,
        }
    }
}

impl SshHost {
    /// A host with nothing filled in.
    pub fn with_id(id: u128) -> (r: SshHost)
        ensures
            r@ == SshHostModel::blank(id),
    {
        let r = SshHost {
            id,
            name: String::new(),
            host: String::new(),
            user: None,
            port: None,
            auth: None,
            identity_file: None,
            jump: None,
            color: None,
            group: None,
            password_saved: false,
            imported: false,
            commands: Vec::new(),
            sftp_local: None,
            sftp_remote: None,
        };
        assert(r@ =~= SshHostModel::blank(id));
        r
    }

    /// A new host, with an identifier of its own.
    pub fn new() -> (r: SshHost)
        ensures
            r@ == SshHostModel::blank(r.id),
            crate::ids::is_random(r.id),
    {
        SshHost::with_id(crate::ids::fresh_id())
    }
}

impl Duplicate for SshHost {
    fn duplicate(&self) -> (r: Self) {
        SshHost {
            id: self.id,
            name: self.name.clone(),
            host: self.host.clone(),
            user: clone_opt(&self.user),
            port: self.port,
            auth: self.auth,
            identity_file: clone_opt(&self.identity_file),
            jump: clone_opt(&self.jump),
            color: self.color,
            group: clone_opt(&self.group),
            password_saved: self.password_saved,
            imported: self.imported,
            commands: clone_all(&self.commands),
            sftp_local: clone_opt(&self.sftp_local),
            sftp_remote: clone_opt(&self.sftp_remote),
        }
    }
}

/// A named, collapsible set of profiles and SSH hosts in the sidebar.
#[derive(Debug)]
pub struct Group {
    pub id: u128,
    pub name: String,
    pub collapsed: bool,
    /// Profile or SSH host ids, in display order.
    pub items: Vec<u128>,
    /// A group of local profiles (in the LOCAL section) rather than of SSH hosts.
    pub local: bool,
    /// Fields written by another version of Ronnie: kept as they are, so that running an older or newer
    /// version never erases them.
    pub extra: Vec<Field>,
}

#[verifier::ext_equal]
pub struct GroupModel {
    pub id: u128,
    pub name: Seq<char>,
    pub collapsed: bool,
    pub items: Seq<u128>,
    pub local: bool,
    pub extra: Seq<(Seq<char>, Seq<char>)>,
}

impl View for Group {
    type V = GroupModel;

    open spec fn view(&self) -> GroupModel {
        GroupModel {
            id: self.id,
            name: self.name@,
            collapsed: self.collapsed,
            items: self.items@,
            local: self.local,
            extra: models(self.extra@),
        }
    }
}

impl GroupModel {
    /// A new group, empty and open.
    pub open spec fn fresh(id: u128, name: Seq<char>, local: bool) -> GroupModel {
        GroupModel {
            id,
            name,
            collapsed: false,
            items: Seq::empty(),
            local,
            extra: Seq::empty(),
        }
    }
}

impl Group {
    /// A group with a given identifier.
    pub fn with_id(id: u128, name: &str, local: bool) -> (r: Group)
        ensures
            r@ == GroupModel::fresh(id, name@, local),
    {
        let r = Group {
            id,
            name: name.to_owned(),
            collapsed: false,
            items: Vec::new(),
            local,
            extra: Vec::new(),
        };
        assert(r@ =~= GroupModel::fresh(id, name@, local));
        r
    }

    /// A new group, with an identifier of its own.
    pub fn new(name: &str, local: bool) -> (r: Group)
        ensures
            r@ == GroupModel::fresh(r.id, name@, local),
            crate::ids::is_random(r.id),
    {
        Group::with_id(crate::ids::fresh_id(), name, local)
    }
}

impl Duplicate for Group {
    fn duplicate(&self) -> (r: Self) {
        Group {
            id: self.id,
            name: self.name.clone(),
            collapsed: self.collapsed,
            items: self.items.clone(),
            local: self.local,
            extra: duplicate_all(&self.extra),
        }
    }
}

/// The languages of the interface.
#[derive(Clone, Copy, PartialEq, Eq, Structural, Debug)]
pub enum Lang {
    Fr,
    En,
}

/// User preferences.
#[derive(Debug)]
pub struct Settings {
    pub language: Lang,
    /// Id of a built-in theme.
    pub theme: String,
    /// Show each local pane's working directory in a strip above it.
    pub show_cwd: bool,
    /// Look for a new release at startup and every few hours.
    pub auto_update: bool,
    pub shortcuts: Shortcuts,
}

#[verifier::ext_equal]
pub struct SettingsModel {
    pub language: Lang,
    pub theme: Seq<char>,
    pub show_cwd: bool,
    pub auto_update: bool,
    pub shortcuts: ShortcutsModel,
}

impl View for Settings {
    type V = SettingsModel;

    open spec fn view(&self) -> SettingsModel {
        SettingsModel {
            language: self.language,
            theme: self.theme@,
            show_cwd: self.show_cwd,
            auto_update: self.auto_update,
            shortcuts: self.shortcuts@,
        }
    }
}

pub fn default_true() -> (r: bool)
    ensures
        r,
{
    true
}

impl Settings {
    /// The preferences of a new user, in a language and with a theme.
    pub fn defaults(language: Lang, theme: &str, platform: crate::shortcut::Platform) -> (r: Settings)
        ensures
            r@ == (SettingsModel {
                language,
                theme: theme@,
                show_cwd: true,
                auto_update: true,
                shortcuts: ShortcutsModel::defaults(platform),
            }),
            r@ == SettingsModel::first(language, theme@, platform),
    {
        Settings {
            language,
            theme: theme.to_owned(),
            show_cwd: default_true(),
            auto_update: default_true(),
            shortcuts: Shortcuts::defaults(platform),
        }
    }

    /// Compares two sets of preferences.
    pub fn same(&self, other: &Settings) -> (r: bool)
        ensures
            r == (self@ == other@),
    {
        self.language == other.language && same_str(&self.theme, &other.theme) && self.show_cwd
            == other.show_cwd && self.auto_update == other.auto_update && self.shortcuts.same(
            &other.shortcuts,
        )
    }
}

impl Duplicate for Settings {
    fn duplicate(&self) -> (r: Self) {
        Settings {
            language: self.language,
            theme: self.theme.clone(),
            show_cwd: self.show_cwd,
            auto_update: self.auto_update,
            shortcuts: self.shortcuts.duplicate(),
        }
    }
}

impl Same for Field {
    open spec fn equal(a: (Seq<char>, Seq<char>), b: (Seq<char>, Seq<char>)) -> bool {
        a == b
    }

    fn same(&self, other: &Self) -> (r: bool) {
        same_str(&self.name, &other.name) && same_str(&self.json, &other.json)
    }
}

impl Same for Profile {
    open spec fn equal(a: ProfileModel, b: ProfileModel) -> bool {
        &&& a.id == b.id
        &&& a.tab.equals(b.tab)
        &&& a.commands == b.commands
        &&& all_equal::<Field>(a.extra, b.extra)
    }

    fn same(&self, other: &Self) -> (r: bool) {
        self.id == other.id && self.tab.same(&other.tab) && same_lists(
            &self.commands,
            &other.commands,
        ) && same_all(&self.extra, &other.extra)
    }
}

impl Same for SshHost {
    open spec fn equal(a: SshHostModel, b: SshHostModel) -> bool {
        a == b
    }

    fn same(&self, other: &Self) -> (r: bool) {
        self.id == other.id && same_str(&self.name, &other.name) && same_str(
            &self.host,
            &other.host,
        ) && same_opt(&self.user, &other.user) && self.port == other.port && self.auth == other.auth
            && same_opt(&self.identity_file, &other.identity_file) && same_opt(
            &self.jump,
            &other.jump,
        ) && self.color == other.color && same_opt(&self.group, &other.group)
            && self.password_saved == other.password_saved && self.imported == other.imported
            && same_lists(&self.commands, &other.commands) && same_opt(
            &self.sftp_local,
            &other.sftp_local,
        ) && same_opt(&self.sftp_remote, &other.sftp_remote)
    }
}

impl Same for Group {
    open spec fn equal(a: GroupModel, b: GroupModel) -> bool {
        &&& a.id == b.id
        &&& a.name == b.name
        &&& a.collapsed == b.collapsed
        &&& a.items == b.items
        &&& a.local == b.local
        &&& all_equal::<Field>(a.extra, b.extra)
    }

    fn same(&self, other: &Self) -> (r: bool) {
        self.id == other.id && same_str(&self.name, &other.name) && self.collapsed
            == other.collapsed && crate::ids::same_lists(&self.items, &other.items) && self.local
            == other.local && same_all(&self.extra, &other.extra)
    }
}

/// Everything the user configures, stored in `config.json`.
#[derive(Debug)]
pub struct Config {
    pub settings: Settings,
    /// Saved tabs: name, color, split layout and each pane's directory.
    pub profiles: Vec<Profile>,
    /// SSH connections. Passwords are in the OS keychain, not here.
    pub ssh: Vec<SshHost>,
    /// Sidebar arrangement of profiles and SSH hosts: first those outside any group, then the groups.
    pub ungrouped: Vec<u128>,
    pub groups: Vec<Group>,
    /// Commands saved for every terminal (the ⚡ menu), written at the prompt on demand.
    pub commands: Vec<String>,
    /// Fields written by another version of Ronnie: kept as they are, so that running an older or newer
    /// version never erases them.
    pub extra: Vec<Field>,
}

#[verifier::ext_equal]
pub struct ConfigModel {
    pub settings: SettingsModel,
    pub profiles: Seq<ProfileModel>,
    pub ssh: Seq<SshHostModel>,
    pub ungrouped: Seq<u128>,
    pub groups: Seq<GroupModel>,
    pub commands: Seq<Seq<char>>,
    pub extra: Seq<(Seq<char>, Seq<char>)>,
}

impl View for Config {
    type V = ConfigModel;

    open spec fn view(&self) -> ConfigModel {
        ConfigModel {
            settings: self.settings@,
            profiles: models(self.profiles@),
            ssh: models(self.ssh@),
            ungrouped: self.ungrouped@,
            groups: models(self.groups@),
            commands: views(self.commands@),
            extra: models(self.extra@),
        }
    }
}

impl ConfigModel {
    /// A config with nothing but settings.
    pub open spec fn blank(settings: SettingsModel) -> ConfigModel {
        ConfigModel {
            settings,
            profiles: Seq::empty(),
            ssh: Seq::empty(),
            ungrouped: Seq::empty(),
            groups: Seq::empty(),
            commands: Seq::empty(),
            extra: Seq::empty(),
        }
    }
}

impl Same for Config {
    open spec fn equal(a: ConfigModel, b: ConfigModel) -> bool {
        &&& a.settings == b.settings
        &&& all_equal::<Profile>(a.profiles, b.profiles)
        &&& all_equal::<SshHost>(a.ssh, b.ssh)
        &&& a.ungrouped == b.ungrouped
        &&& all_equal::<Group>(a.groups, b.groups)
        &&& a.commands == b.commands
        &&& all_equal::<Field>(a.extra, b.extra)
    }

    fn same(&self, other: &Self) -> (r: bool) {
        self.settings.same(&other.settings) && same_all(&self.profiles, &other.profiles)
            && same_all(&self.ssh, &other.ssh) && crate::ids::same_lists(
            &self.ungrouped,
            &other.ungrouped,
        ) && same_all(&self.groups, &other.groups) && same_lists(&self.commands, &other.commands)
            && same_all(&self.extra, &other.extra)
    }
}

impl Duplicate for Config {
    fn duplicate(&self) -> (r: Self) {
        Config {
            settings: self.settings.duplicate(),
            profiles: duplicate_all(&self.profiles),
            ssh: duplicate_all(&self.ssh),
            ungrouped: self.ungrouped.clone(),
            groups: duplicate_all(&self.groups),
            commands: clone_all(&self.commands),
            extra: duplicate_all(&self.extra),
        }
    }
}

impl Config {
    /// A config with nothing but settings.
    pub fn new(settings: Settings) -> (r: Config)
        ensures
            r@ == ConfigModel::blank(settings@),
    {
        let r = Config {
            settings,
            profiles: Vec::new(),
            ssh: Vec::new(),
            ungrouped: Vec::new(),
            groups: Vec::new(),
            commands: Vec::new(),
            extra: Vec::new(),
        };
        assert(r@ =~= ConfigModel::blank(settings@));
        r
    }
}

#[derive(Debug)]
pub struct SessionTab {
    /// Profile this tab stays in sync with.
    pub profile: Option<u128>,
    /// SSH host this tab is connected to.
    pub ssh: Option<u128>,
    pub tab: TabState,
}

#[verifier::ext_equal]
pub struct SessionTabModel {
    pub profile: Option<u128>,
    pub ssh: Option<u128>,
    pub tab: TabStateModel,
}

impl View for SessionTab {
    type V = SessionTabModel;

    open spec fn view(&self) -> SessionTabModel {
        SessionTabModel { profile: self.profile, ssh: self.ssh, tab: self.tab@ }
    }
}

impl Same for SessionTab {
    open spec fn equal(a: SessionTabModel, b: SessionTabModel) -> bool {
        a.profile == b.profile && a.ssh == b.ssh && a.tab.equals(b.tab)
    }

    fn same(&self, other: &Self) -> (r: bool) {
        self.profile == other.profile && self.ssh == other.ssh && self.tab.same(&other.tab)
    }
}

impl Duplicate for SessionTab {
    fn duplicate(&self) -> (r: Self) {
        SessionTab { profile: self.profile, ssh: self.ssh, tab: self.tab.duplicate() }
    }
}

/// Window geometry in points. Position and size are those of the normal (not maximized) window.
#[derive(Clone, Copy, PartialEq, Eq, Structural, Debug)]
pub struct WindowState {
    pub x: Real,
    pub y: Real,
    pub width: Real,
    pub height: Real,
    pub maximized: bool,
    pub fullscreen: bool,
}

impl WindowState {
    pub open spec fn equals(self, other: WindowState) -> bool {
        &&& self.x.equals(other.x)
        &&& self.y.equals(other.y)
        &&& self.width.equals(other.width)
        &&& self.height.equals(other.height)
        &&& self.maximized == other.maximized
        &&& self.fullscreen == other.fullscreen
    }

    /// Compares two geometries.
    pub fn same(self, other: WindowState) -> (r: bool)
        ensures
            r == self.equals(other),
    {
        self.x.same(other.x) && self.y.same(other.y) && self.width.same(other.width)
            && self.height.same(other.height) && self.maximized == other.maximized
            && self.fullscreen == other.fullscreen
    }
}

#[derive(Debug)]
pub struct Session {
    pub tabs: Vec<SessionTab>,
    pub active: usize,
    /// Most recently closed last.
    pub closed: Vec<SessionTab>,
    pub window: Option<WindowState>,
}

#[verifier::ext_equal]
pub struct SessionModel {
    pub tabs: Seq<SessionTabModel>,
    pub active: usize,
    pub closed: Seq<SessionTabModel>,
    pub window: Option<WindowState>,
}

impl View for Session {
    type V = SessionModel;

    open spec fn view(&self) -> SessionModel {
        SessionModel {
            tabs: models(self.tabs@),
            active: self.active,
            closed: models(self.closed@),
            window: self.window,
        }
    }
}

impl SessionModel {
    pub open spec fn same_window(a: Option<WindowState>, b: Option<WindowState>) -> bool {
        match (a, b) {
            (Some(a), Some(b)) => a.equals(b),
            (None, None) => true,
            _ => false,
        }
    }
}

impl Same for Session {
    open spec fn equal(a: SessionModel, b: SessionModel) -> bool {
        &&& all_equal::<SessionTab>(a.tabs, b.tabs)
        &&& a.active == b.active
        &&& all_equal::<SessionTab>(a.closed, b.closed)
        &&& SessionModel::same_window(a.window, b.window)
    }

    fn same(&self, other: &Self) -> (r: bool) {
        same_all(&self.tabs, &other.tabs) && self.active == other.active && same_all(
            &self.closed,
            &other.closed,
        ) && match (self.window, other.window) {
            (Some(a), Some(b)) => a.same(b),
            (None, None) => true,
            _ => false,
        }
    }
}

impl Default for Session {
    fn default() -> (r: Self)
        ensures
            r@ == (SessionModel {
                tabs: Seq::empty(),
                active: 0,
                closed: Seq::empty(),
                window: None,
            }),
    {
        let r = Session { tabs: Vec::new(), active: 0, closed: Vec::new(), window: None };
        assert(models(r.tabs@) =~= Seq::empty());
        assert(models(r.closed@) =~= Seq::empty());
        r
    }
}

impl SettingsModel {
    /// The settings at first.
    pub open spec fn first(
        language: Lang,
        theme: Seq<char>,
        platform: crate::shortcut::Platform,
    ) -> SettingsModel {
        SettingsModel {
            language,
            theme,
            show_cwd: true,
            auto_update: true,
            shortcuts: ShortcutsModel::defaults(platform),
        }
    }
}

} // verus!
