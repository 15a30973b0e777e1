//! What the file manager does with what the user does: rows, menus, the keyboard,
//! dialogs and the transfer queue.

use crate::files::{Dialog, DialogModel, FileManager, FileManagerModel, Side};
use crate::model::{lemma_push, models};
use crate::names::{name_set, Names};
use crate::panel::{shows, Panel, PanelModel};
use crate::sftp::{EntryModel, Request, RequestModel};
use crate::text::{clone_all, has_char, opt_view, same_str, to_chars, trim_str, trimmed, views};
use vstd::prelude::*;

verus! {

/// One thing to do, in order.
#[derive(Debug)]
pub enum Step {
    /// The keyboard acts on this panel from now on.
    Focus(Side),
    /// Go to a folder.
    Go(Side, String),
    /// Read a panel's folder again.
    Refresh(Side),
    /// Transfer names of a side, into a folder of the other or where that is.
    Transfer { from: Side, names: Vec<String>, target: Option<String> },
    /// Show a dialog.
    Ask(Dialog),
    /// Select every row.
    SelectAll(Side),
}

#[verifier::ext_equal]
pub enum StepModel {
    Focus(Side),
    Go(Side, Seq<char>),
    Refresh(Side),
    Transfer { from: Side, names: Seq<Seq<char>>, target: Option<Seq<char>> },
    Ask(DialogModel),
    SelectAll(Side),
}

impl View for Step {
    type V = StepModel;

    open spec fn view(&self) -> StepModel {
        match *self {
            Step::Focus(side) => StepModel::Focus(side),
            Step::Go(side, path) => StepModel::Go(side, path@),
            Step::Refresh(side) => StepModel::Refresh(side),
            Step::Transfer { from, names, target } => StepModel::Transfer {
                from,
                names: views(names@),
                target: opt_view(target),
            },
            Step::Ask(dialog) => StepModel::Ask(dialog@),
            Step::SelectAll(side) => StepModel::SelectAll(side),
        }
    }
}

/// What is to be done on this computer before the next step.
#[derive(Debug)]
pub enum Task {
    Nothing,
    /// Read the local folder.
    Read,
    /// Read the local folder, and go back to this one if it can't be read.
    Visit(String),
    /// Make a folder, then read the local folder.
    MakeDir(String),
    /// Rename a file, then read the local folder.
    Rename(String, String),
    /// Remove files and folders, then read the local folder.
    Remove(Vec<String>),
}

#[verifier::ext_equal]
pub enum TaskModel {
    Nothing,
    Read,
    Visit(Seq<char>),
    MakeDir(Seq<char>),
    Rename(Seq<char>, Seq<char>),
    Remove(Seq<Seq<char>>),
}

impl View for Task {
    type V = TaskModel;

    open spec fn view(&self) -> TaskModel {
        match *self {
            Task::Nothing => TaskModel::Nothing,
            Task::Read => TaskModel::Read,
            Task::Visit(p) => TaskModel::Visit(p@),
            Task::MakeDir(p) => TaskModel::MakeDir(p@),
            Task::Rename(a, b) => TaskModel::Rename(a@, b@),
            Task::Remove(p) => TaskModel::Remove(views(p@)),
        }
    }
}

/// What a panel reported.
#[derive(Debug)]
pub struct PanelOut {
    pub side: Option<Side>,
    pub focus: bool,
    pub go: Option<String>,
    pub home: bool,
    pub refresh: bool,
    pub transfer: Option<Vec<String>>,
    /// Names dragged from the other panel, and the folder dropped onto (None: this panel's folder).
    pub dropped: Option<(Vec<String>, Option<String>)>,
    pub dialog: Option<Dialog>,
}

/// Keys pressed.
#[derive(Clone, Copy, Debug)]
pub struct Keys {
    pub delete: bool,
    pub rename: bool,
    pub enter: bool,
    pub all: bool,
}

/// How a dialog ends.
#[derive(Clone, Copy, PartialEq, Eq, Structural, Debug)]
pub enum Outcome {
    Confirm,
    /// Conflict: transfer, but keep the existing files.
    Skip,
    Cancel,
}

/// A list of one step, or of none.
pub open spec fn step_if(b: bool, s: StepModel) -> Seq<StepModel> {
    if b {
        seq![s]
    } else {
        Seq::empty()
    }
}

/// Where "home" leads: the local home directory where it is known, else what "."
/// resolves to.
pub open spec fn home_path(side: Side, home: Option<Seq<char>>) -> Seq<char> {
    match (side, home) {
        (Side::Local, Some(h)) => h,
        _ => seq!['.'],
    }
}

/// The steps that what a panel reported asks for, in order.
pub open spec fn panel_steps(out: PanelOut, home: Option<Seq<char>>) -> Seq<StepModel> {
    match out.side {
        None => Seq::empty(),
        Some(side) => step_if(out.focus, StepModel::Focus(side)) + (match out.go {
            Some(p) => step_if(p@.len() > 0, StepModel::Go(side, p@)),
            None => Seq::empty(),
        }) + step_if(out.home, StepModel::Go(side, home_path(side, home))) + step_if(
            out.refresh,
            StepModel::Refresh(side),
        ) + (match out.transfer {
            Some(names) => seq![
                StepModel::Transfer { from: side, names: views(names@), target: None },
            ],
            None => Seq::empty(),
        }) + (match out.dropped {
            Some(d) => seq![
                StepModel::Transfer {
                    from: side.opposite(),
                    names: views(d.0@),
                    target: opt_view(d.1),
                },
            ],
            None => Seq::empty(),
        }) + (match out.dialog {
            Some(d) => seq![StepModel::Ask(d@)],
            None => Seq::empty(),
        }),
    }
}

fn add_step(steps: &mut Vec<Step>, step: Step)
    ensures
        models(final(steps)@) == models(old(steps)@) + seq![step@],
{
    let ghost before = steps@;
    steps.push(step);
    proof {
        lemma_push(before, step);
        assert(models(before).push(step@) =~= models(before) + seq![step@]);
    }
}

impl PanelOut {
    /// The steps that this asks for, in order.
    pub fn steps(self, home: Option<String>) -> (r: Vec<Step>)
        ensures
            models(r@) == panel_steps(self, opt_view(home)),
    {
        let mut r: Vec<Step> = Vec::new();
        let ghost h = opt_view(home);
        assert(models(r@) =~= Seq::empty());
        let side = match self.side {
            Some(side) => side,
            None => {
                return r;
            },
        };
        if self.focus {
            add_step(&mut r, Step::Focus(side));
        }
        let ghost s1 = models(r@);
        assert(s1 =~= step_if(self.focus, StepModel::Focus(side)));
        if let Some(p) = self.go {
            if to_chars(p.as_str()).len() > 0 {
                add_step(&mut r, Step::Go(side, p));
            }
        }
        let ghost s2 = models(r@);
        assert(s2 =~= s1 + (match self.go {
            Some(p) => step_if(p@.len() > 0, StepModel::Go(side, p@)),
            None => Seq::empty(),
        }));
        if self.home {
            let path = match (side, home) {
                (Side::Local, Some(h)) => h,
                _ => {
                    let mut dot = String::new();
                    dot.push('.');
                    assert(dot@ =~= seq!['.']);
                    dot
                },
            };
            add_step(&mut r, Step::Go(side, path));
        }
        let ghost s3 = models(r@);
        assert(s3 =~= s2 + step_if(self.home, StepModel::Go(side, home_path(side, h))));
        if self.refresh {
            add_step(&mut r, Step::Refresh(side));
        }
        let ghost s4 = models(r@);
        assert(s4 =~= s3 + step_if(self.refresh, StepModel::Refresh(side)));
        if let Some(names) = self.transfer {
            add_step(&mut r, Step::Transfer { from: side, names, target: None });
        }
        let ghost s5 = models(r@);
        assert(s5 =~= s4 + (match self.transfer {
            Some(names) => seq![
                StepModel::Transfer { from: side, names: views(names@), target: None },
            ],
            None => Seq::empty(),
        }));
        if let Some((names, target)) = self.dropped {
            add_step(&mut r, Step::Transfer { from: side.other(), names, target });
        }
        let ghost s6 = models(r@);
        assert(s6 =~= s5 + (match self.dropped {
            Some(d) => seq![
                StepModel::Transfer {
                    from: side.opposite(),
                    names: views(d.0@),
                    target: opt_view(d.1),
                },
            ],
            None => Seq::empty(),
        }));
        if let Some(dialog) = self.dialog {
            add_step(&mut r, Step::Ask(dialog));
        }
        assert(models(r@) =~= s6 + (match self.dialog {
            Some(d) => seq![StepModel::Ask(d@)],
            None => Seq::empty(),
        }));
        r
    }
}

/// The names of the rows of a panel, in the order of the folder.
pub open spec fn row_names(entries: Seq<EntryModel>, show_hidden: bool) -> Seq<Seq<char>> {
    entries.filter(|e: EntryModel| shows(e, show_hidden)).map_values(|e: EntryModel| e.name)
}

impl PanelModel {
    /// With every row selected.
    pub open spec fn all_selected(self, show_hidden: bool) -> PanelModel {
        PanelModel { selected: name_set(row_names(self.entries, show_hidden)), ..self }
    }
}

impl Panel {
    /// Selects every row.
    pub fn select_all(&mut self, show_hidden: bool)
        ensures
            final(self).wf(),
            final(self)@ == old(self)@.all_selected(show_hidden),
    {
        let mut names: Vec<String> = Vec::new();
        let mut i: usize = 0;
        let ghost all = self@.entries;
        let ghost p = |e: EntryModel| shows(e, show_hidden);
        proof {
            reveal(Seq::filter);
            assert(views(names@) =~= all.take(0).filter(p).map_values(|e: EntryModel| e.name));
        }
        while i < self.entries.len()
            invariant
                i <= self.entries@.len(),
                self@ == old(self)@,
                all == self@.entries,
                p == (|e: EntryModel| shows(e, show_hidden)),
                views(names@) == all.take(i as int).filter(p).map_values(|e: EntryModel| e.name),
            decreases self.entries.len() - i,
        {
            proof {
                reveal(Seq::filter);
                assert(all.take(i + 1).drop_last() =~= all.take(i as int));
            }
            let ghost before = views(names@);
            let ghost kept = all.take(i as int).filter(p);
            let chars = to_chars(self.entries[i].name.as_str());
            if show_hidden || !(chars.len() > 0 && chars[0] == '.') {
                names.push(self.entries[i].name.clone());
                proof {
                    assert(views(names@) =~= before.push(all[i as int].name));
                    assert(kept.push(all[i as int]).map_values(|e: EntryModel| e.name)
                        =~= kept.map_values(|e: EntryModel| e.name).push(all[i as int].name));
                }
            }
            i += 1;
        }
        assert(all.take(i as int) =~= all);
        self.selected = Names::from_list(&names);
    }
}

impl FileManagerModel {
    /// With another panel on a side.
    pub open spec fn with_panel(self, side: Side, panel: PanelModel) -> FileManagerModel {
        match side {
            Side::Local => FileManagerModel { local: panel, ..self },
            Side::Remote => FileManagerModel { remote: panel, ..self },
        }
    }

    /// On another folder of a side; a local one is still to be read.
    pub open spec fn gone(self, side: Side, path: Seq<char>) -> FileManagerModel {
        match side {
            Side::Local => FileManagerModel {
                local: PanelModel { path, selected: Seq::empty(), ..self.local },
                ..self
            },
            Side::Remote => (FileManagerModel {
                remote: PanelModel {
                    path,
                    path_text: self.remote.path,
                    selected: Seq::empty(),
                    ..self.remote
                },
                ..self
            }).listing(),
        }
    }

    /// What a step leads to.
    pub open spec fn stepped(self, s: StepModel) -> (FileManagerModel, TaskModel) {
        match s {
            StepModel::Focus(side) => (
                FileManagerModel { active: side, ..self },
                TaskModel::Nothing,
            ),
            StepModel::Go(side, path) => (
                self.gone(side, path),
                match side {
                    Side::Local => TaskModel::Visit(self.local.path),
                    Side::Remote => TaskModel::Nothing,
                },
            ),
            StepModel::Refresh(side) => match side {
                Side::Local => (self, TaskModel::Read),
                Side::Remote => (self.listing(), TaskModel::Nothing),
            },
            StepModel::Transfer { from, names, target } => (
                self.transferring(from, names, target),
                TaskModel::Nothing,
            ),
            StepModel::Ask(dialog) => (
                FileManagerModel { dialog: Some(dialog), ..self },
                TaskModel::Nothing,
            ),
            StepModel::SelectAll(side) => (
                self.with_panel(side, self.panel(side).all_selected(self.show_hidden)),
                TaskModel::Nothing,
            ),
        }
    }

    /// Whether a name is that of a folder of a side.
    pub open spec fn is_folder(self, side: Side, name: Seq<char>) -> bool {
        exists|i: int|
            0 <= i < self.panel(side).entries.len() && (#[trigger] self.panel(side).entries[i]).name
                == name && self.panel(side).entries[i].is_dir
    }

    /// The steps that keys ask for: none while a text field or a dialog has the keyboard.
    pub open spec fn key_steps(self, keys: Keys, typing: bool) -> Seq<StepModel> {
        let side = self.active;
        let s = self.panel(side).selected;
        if typing || self.dialog is Some {
            Seq::empty()
        } else {
            step_if(
                keys.delete && s.len() > 0,
                StepModel::Ask(DialogModel::Delete { side, names: s }),
            ) + step_if(
                keys.rename && s.len() == 1,
                StepModel::Ask(DialogModel::Rename { side, from: s[0], text: s[0], fresh: true }),
            ) + step_if(
                keys.enter && s.len() == 1 && self.is_folder(side, s[0]),
                StepModel::Go(side, self.path_of(side, s[0])),
            ) + step_if(keys.all, StepModel::SelectAll(side))
        }
    }

    /// With a folder made, or the local one to make.
    pub open spec fn making(self, side: Side, name: Seq<char>) -> (FileManagerModel, TaskModel) {
        let path = self.path_of(side, name);
        match side {
            Side::Local => (self, TaskModel::MakeDir(path)),
            Side::Remote => (self.sending(RequestModel::Mkdir(path)), TaskModel::Nothing),
        }
    }

    /// With a file renamed, or the local one to rename.
    pub open spec fn renaming(self, side: Side, from: Seq<char>, to: Seq<char>) -> (
        FileManagerModel,
        TaskModel,
    ) {
        let a = self.path_of(side, from);
        let b = self.path_of(side, to);
        match side {
            Side::Local => (self, TaskModel::Rename(a, b)),
            Side::Remote => (self.sending(RequestModel::Rename(a, b)), TaskModel::Nothing),
        }
    }

    /// With files removed, or the local ones to remove.
    pub open spec fn removing(self, side: Side, names: Seq<Seq<char>>) -> (
        FileManagerModel,
        TaskModel,
    ) {
        let paths = self.paths_of(side, names);
        match side {
            Side::Local => (self, TaskModel::Remove(paths)),
            Side::Remote => (self.sending(RequestModel::Remove(paths)), TaskModel::Nothing),
        }
    }

    /// What the end of the dialog leads to. A name is trimmed; one that is empty,
    /// unchanged or holds a "/" changes nothing.
    pub open spec fn resolved(self, outcome: Outcome) -> (FileManagerModel, TaskModel) {
        let closed = FileManagerModel { dialog: None, ..self };
        match self.dialog {
            None => (self, TaskModel::Nothing),
            Some(dialog) => if outcome is Cancel {
                (closed, TaskModel::Nothing)
            } else {
                match dialog {
                    DialogModel::Rename { side, from, text, .. } => {
                        let to = trimmed(text);
                        if to.len() > 0 && to != from && !to.contains('/') {
                            closed.renaming(side, from, to)
                        } else {
                            (closed, TaskModel::Nothing)
                        }
                    },
                    DialogModel::Mkdir { side, text, .. } => {
                        let name = trimmed(text);
                        if name.len() > 0 && !name.contains('/') {
                            closed.making(side, name)
                        } else {
                            (closed, TaskModel::Nothing)
                        }
                    },
                    DialogModel::Delete { side, names } => closed.removing(side, names),
                    DialogModel::Chmod { names, mode, recursive, .. } => (
                        closed.sending(
                            RequestModel::Chmod {
                                paths: self.paths_of(Side::Remote, names),
                                mode,
                                recursive,
                            },
                        ),
                        TaskModel::Nothing,
                    ),
                    DialogModel::Conflict { from, names, target, .. } => (
                        closed.started(from, names, target, outcome is Confirm),
                        TaskModel::Nothing,
                    ),
                }
            },
        }
    }
}

impl FileManager {
    /// Takes a step. Gives what is to be done on this computer before the next.
    pub fn step(&mut self, step: Step) -> (task: Task)
        requires
            old(self).wf(),
            old(self).next_id < u64::MAX,
        ensures
            final(self).wf(),
            (final(self)@, task@) == old(self)@.stepped(step@),
    {
        match step {
            Step::Focus(side) => {
                self.active = side;
                Task::Nothing
            },
            Step::Go(side, path) => match self.open_dir(side, path) {
                Some(previous) => Task::Visit(previous),
                None => Task::Nothing,
            },
            Step::Refresh(side) => match side {
                Side::Local => Task::Read,
                Side::Remote => {
                    self.list_remote();
                    Task::Nothing
                },
            },
            Step::Transfer { from, names, target } => {
                self.transfer(from, names, target);
                Task::Nothing
            },
            Step::Ask(dialog) => {
                self.dialog = Some(dialog);
                Task::Nothing
            },
            Step::SelectAll(side) => {
                let show_hidden = self.show_hidden;
                match side {
                    Side::Local => self.local.select_all(show_hidden),
                    Side::Remote => self.remote.select_all(show_hidden),
                }
                Task::Nothing
            },
        }
    }

    fn folder_named(&self, side: Side, name: &str) -> (r: bool)
        ensures
            r == self@.is_folder(side, name@),
    {
        let panel = match side {
            Side::Local => &self.local,
            Side::Remote => &self.remote,
        };
        let ghost all = self@.panel(side).entries;
        let mut i: usize = 0;
        while i < panel.entries.len()
            invariant
                i <= panel.entries@.len(),
                all == models(panel.entries@),
                all == self@.panel(side).entries,
                forall|j: int|
                    0 <= j < i ==> !((#[trigger] all[j]).name == name@ && all[j].is_dir),
            decreases panel.entries.len() - i,
        {
            if panel.entries[i].is_dir && same_str(panel.entries[i].name.as_str(), name) {
                assert(all[i as int].name == name@ && all[i as int].is_dir);
                return true;
            }
            i += 1;
        }
        false
    }

    /// Delete / F2 / Enter / Cmd+A on the active panel, when no text field has the keyboard.
    pub fn keyboard(&self, keys: Keys, typing: bool) -> (r: Vec<Step>)
        ensures
            models(r@) == self@.key_steps(keys, typing),
    {
        let mut r: Vec<Step> = Vec::new();
        assert(models(r@) =~= Seq::empty());
        if typing || self.dialog.is_some() {
            return r;
        }
        let side = self.active;
        let selection = match side {
            Side::Local => self.local.selection(),
            Side::Remote => self.remote.selection(),
        };
        let ghost s = self@.panel(side).selected;
        assert(selection@.len() == s.len());
        if keys.delete && selection.len() > 0 {
            add_step(&mut r, Step::Ask(Dialog::Delete { side, names: clone_all(&selection) }));
        }
        let ghost s1 = models(r@);
        assert(s1 =~= step_if(
            keys.delete && s.len() > 0,
            StepModel::Ask(DialogModel::Delete { side, names: s }),
        ));
        if keys.rename && selection.len() == 1 {
            add_step(
                &mut r,
                Step::Ask(
                    Dialog::Rename {
                        side,
                        from: selection[0].clone(),
                        text: selection[0].clone(),
                        fresh: true,
                    },
                ),
            );
        }
        let ghost s2 = models(r@);
        assert(s2 =~= s1 + step_if(
            keys.rename && s.len() == 1,
            StepModel::Ask(DialogModel::Rename { side, from: s[0], text: s[0], fresh: true }),
        ));
        if keys.enter && selection.len() == 1 {
            if self.folder_named(side, selection[0].as_str()) {
                let path = self.path_of(side, selection[0].as_str());
                add_step(&mut r, Step::Go(side, path));
            }
        }
        let ghost s3 = models(r@);
        assert(s3 =~= s2 + step_if(
            keys.enter && s.len() == 1 && self@.is_folder(side, s[0]),
            StepModel::Go(side, self@.path_of(side, s[0])),
        ));
        if keys.all {
            add_step(&mut r, Step::SelectAll(side));
        }
        assert(models(r@) =~= s3 + step_if(keys.all, StepModel::SelectAll(side)));
        r
    }

    /// Makes a folder.
    pub fn mkdir(&mut self, side: Side, name: &str) -> (task: Task)
        ensures
            (final(self)@, task@) == old(self)@.making(side, name@),
    {
        let path = self.path_of(side, name);
        match side {
            Side::Local => Task::MakeDir(path),
            Side::Remote => {
                self.send(Request::Mkdir(path));
                Task::Nothing
            },
        }
    }

    /// Renames a file.
    pub fn rename(&mut self, side: Side, from: &str, to: &str) -> (task: Task)
        ensures
            (final(self)@, task@) == old(self)@.renaming(side, from@, to@),
    {
        let a = self.path_of(side, from);
        let b = self.path_of(side, to);
        match side {
            Side::Local => Task::Rename(a, b),
            Side::Remote => {
                self.send(Request::Rename(a, b));
                Task::Nothing
            },
        }
    }

    /// Removes files and folders.
    pub fn delete(&mut self, side: Side, names: &Vec<String>) -> (task: Task)
        ensures
            (final(self)@, task@) == old(self)@.removing(side, views(names@)),
    {
        let paths = self.paths_of(side, names);
        match side {
            Side::Local => Task::Remove(paths),
            Side::Remote => {
                self.send(Request::Remove(paths));
                Task::Nothing
            },
        }
    }

    /// Notes that a local file could not be changed.
    pub fn fail(&mut self, path: &str, error: &str)
        ensures
            final(self)@ == (FileManagerModel {
                error: Some(path@ + " : "@ + error@),
                ..old(self)@
            }),
            final(self)@ == old(self)@.failing(path@, error@),
    {
        let mut s = path.to_owned();
        s.push_str(" : ");
        s.push_str(error);
        self.error = Some(s);
    }

    /// Ends the dialog. Gives what is to be done on this computer.
    pub fn resolve(&mut self, outcome: Outcome) -> (task: Task)
        requires
            old(self).next_id < u64::MAX,
            old(self)@.dialog matches Some(DialogModel::Conflict { names, .. }) ==> names.len() > 0,
        ensures
            (final(self)@, task@) == old(self)@.resolved(outcome),
    {
        let dialog = match self.dialog.take() {
            Some(dialog) => dialog,
            None => {
                return Task::Nothing;
            },
        };
        if outcome == Outcome::Cancel {
            return Task::Nothing;
        }
        match dialog {
            Dialog::Rename { side, from, text, fresh: _ } => {
                let to = trim_str(text.as_str());
                let chars = to_chars(to.as_str());
                if chars.len() > 0 && !same_str(to.as_str(), from.as_str()) && !has_char(
                    &chars,
                    '/',
                ) {
                    self.rename(side, from.as_str(), to.as_str())
                } else {
                    Task::Nothing
                }
            },
            Dialog::Mkdir { side, text, fresh: _ } => {
                let name = trim_str(text.as_str());
                let chars = to_chars(name.as_str());
                if chars.len() > 0 && !has_char(&chars, '/') {
                    self.mkdir(side, name.as_str())
                } else {
                    Task::Nothing
                }
            },
            Dialog::Delete { side, names } => self.delete(side, &names),
            Dialog::Chmod { names, mode, octal: _, recursive, any_dir: _ } => {
                let paths = self.paths_of(Side::Remote, &names);
                assert(old(self)@.paths_of(Side::Remote, views(names@)) =~= self@.paths_of(
                    Side::Remote,
                    views(names@),
                ));
                self.send(Request::Chmod { paths, mode, recursive });
                Task::Nothing
            },
            Dialog::Conflict { from, names, target, existing: _ } => {
                assert(views(names@).len() == names@.len());
                self.start_transfer(from, names, target, outcome == Outcome::Confirm);
                Task::Nothing
            },
        }
    }
}

/// Whether a request overwrites what exists.
pub open spec fn overwrites(r: RequestModel) -> bool {
    match r {
        RequestModel::Download { overwrite, .. } => overwrite,
        RequestModel::Upload { overwrite, .. } => overwrite,
        _ => false,
    }
}

/// Files are overwritten only where the user confirmed it: no step sends a request
/// that overwrites, nor does the end of a dialog that was skipped or cancelled.
pub proof fn law_overwrites_only_confirmed(
    m: FileManagerModel,
    s: StepModel,
    outcome: Outcome,
    i: int,
)
    requires
        !(outcome is Confirm),
    ensures
        m.outbox.len() <= i < m.stepped(s).0.outbox.len() ==> !overwrites(m.stepped(s).0.outbox[i]),
        m.outbox.len() <= i < m.resolved(outcome).0.outbox.len() ==> !overwrites(
            m.resolved(outcome).0.outbox[i],
        ),
{
}

/// Asking to transfer a name that exists where it would go sends nothing and asks
/// first.
pub proof fn law_conflicts_are_asked(
    m: FileManagerModel,
    from: Side,
    names: Seq<Seq<char>>,
    i: int,
)
    requires
        m.connected,
        0 <= i < names.len(),
        crate::panel::names_of(m.panel(from.opposite()).entries).contains(names[i]),
    ensures
        m.transferring(from, names, None).outbox == m.outbox,
        m.transferring(from, names, None).transfers == m.transfers,
        m.transferring(from, names, None).dialog matches Some(
            DialogModel::Conflict { existing, .. },
        ) && existing.contains(names[i]),
{
    let there = m.panel(from.opposite());
    let p = |n: Seq<char>| crate::panel::names_of(there.entries).contains(n);
    names.lemma_filter_contains(p, i);
    assert(m.existing(from, names, there.path) == names.filter(p));
}

/// A dialog that is cancelled closes, and nothing else happens.
pub proof fn law_cancel_only_closes(m: FileManagerModel)
    ensures
        m.resolved(Outcome::Cancel) == (
            FileManagerModel { dialog: None, ..m },
            TaskModel::Nothing,
        ),
{
}

impl FileManagerModel {
    /// With an error about a path.
    pub open spec fn failing(self, path: Seq<char>, error: Seq<char>) -> FileManagerModel {
        FileManagerModel { error: Some(path + " : "@ + error), ..self }
    }
}

} // verus!
