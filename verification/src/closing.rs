//! Closing panes, tabs and the window: what that would interrupt, asking first,
//! and starting again.

use crate::app::{App, AppModel, CloseRequest, ConfirmClose, ConfirmCloseModel};
use crate::config::SshHostModel;
use crate::files::ordinary;
use crate::model::models;
use crate::pane::PaneId;
use crate::session::{caused, with_cause};
use crate::sorting::{law_sorted, sort_texts, sorted};
use crate::strings::Strings;
use crate::tab::{seen_views, Tab, TabModel};
use crate::text::{last_place, opt_view, views};
use vstd::prelude::*;

verus! {

broadcast use vstd::std_specs::hash::group_hash_axioms;

/// What a pane is used for.
#[derive(Debug)]
pub struct PaneUse {
    pub id: PaneId,
    /// Its program ended.
    pub exited: bool,
    /// The program that runs instead of the shell.
    pub program: Option<String>,
    /// The name of the folder it is in.
    pub dir: Option<String>,
}

#[verifier::ext_equal]
pub struct PaneUseModel {
    pub id: PaneId,
    pub exited: bool,
    pub program: Option<Seq<char>>,
    pub dir: Option<Seq<char>>,
}

impl View for PaneUse {
    type V = PaneUseModel;

    open spec fn view(&self) -> PaneUseModel {
        PaneUseModel {
            id: self.id,
            exited: self.exited,
            program: opt_view(self.program),
            dir: opt_view(self.dir),
        }
    }
}

/// What the panes of a tab are used for, and the title of the focused program.
#[derive(Debug)]
pub struct TabUse {
    pub title: Option<String>,
    pub panes: Vec<PaneUse>,
}

#[verifier::ext_equal]
pub struct TabUseModel {
    pub title: Option<Seq<char>>,
    pub panes: Seq<PaneUseModel>,
}

impl View for TabUse {
    type V = TabUseModel;

    open spec fn view(&self) -> TabUseModel {
        TabUseModel { title: opt_view(self.title), panes: models(self.panes@) }
    }
}

/// What follows the last "/" of a path.
pub open spec fn last_part(path: Seq<char>) -> Seq<char> {
    path.skip(last_place(path, '/') + 1)
}

/// `std::path::Path::file_name`: the final part of a path, unless it ends in "..",
/// has no part or ends at a root. What the parts are depends on the system, so the
/// result is stated for paths that every system takes apart alike.
#[verifier::external_body]
fn file_name(path: &str) -> (r: Option<String>)
    ensures
        path@.len() == 0 ==> r is None,
        ordinary(path@) ==> opt_view(r) == if last_part(path@) == seq!['.', '.'] {
            None
        } else {
            Some(last_part(path@))
        },
{
    std::path::Path::new(path).file_name().map(|n| n.to_string_lossy().into_owned())
}

impl PaneUse {
    /// What a pane is used for, given the directory it is in.
    pub fn new(id: PaneId, exited: bool, program: Option<String>, cwd: Option<&str>) -> (r: PaneUse)
        ensures
            r.id == id,
            r.exited == exited,
            r.program == program,
            cwd is None ==> r.dir is None,
            cwd matches Some(c) ==> {
                &&& c@.len() == 0 ==> r.dir is None
                &&& ordinary(c@) ==> opt_view(r.dir) == if last_part(c@) == seq!['.', '.'] {
                    None
                } else {
                    Some(last_part(c@))
                }
            },
    {
        let dir = match cwd {
            Some(c) => file_name(c),
            None => None,
        };
        PaneUse { id, exited, program, dir }
    }
}

/// What closing a pane would interrupt: a program that runs instead of the shell, or
/// an open SSH connection. The folder tells apart several panes running the same
/// program.
pub open spec fn interrupted(t: TabModel, title: Option<Seq<char>>, u: PaneUseModel) -> Option<
    Seq<char>,
> {
    if t.dead.contains(u.id) || u.exited {
        None
    } else if t.ssh is Some {
        Some(t.called(title) + "  ·  ssh"@)
    } else {
        match (u.program, u.dir) {
            (Some(program), Some(dir)) => Some(
                t.called(title) + "  ·  "@ + program + "  ("@ + dir + ")"@,
            ),
            (Some(program), None) => Some(t.called(title) + "  ·  "@ + program),
            (None, _) => None,
        }
    }
}

/// What closing panes of a tab (one, or all of them) would interrupt, pane by pane.
pub open spec fn interruptions(
    t: TabModel,
    title: Option<Seq<char>>,
    panes: Seq<PaneUseModel>,
    only: Option<PaneId>,
) -> Seq<Seq<char>>
    decreases panes.len(),
{
    if panes.len() == 0 {
        Seq::empty()
    } else {
        let rest = interruptions(t, title, panes.drop_last(), only);
        let u = panes.last();
        if only is Some && only->0 != u.id {
            rest
        } else {
            match interrupted(t, title, u) {
                Some(line) => rest.push(line),
                None => rest,
            }
        }
    }
}

impl AppModel {
    /// What closing panes of a tab would interrupt, in order.
    pub open spec fn busy(self, index: usize, only: Option<PaneId>, uses: Seq<TabUseModel>) -> Seq<
        Seq<char>,
    > {
        if index < self.tabs.len() {
            let u = uses[index as int];
            sorted(interruptions(self.tabs[index as int], u.title, u.panes, only))
        } else {
            Seq::empty()
        }
    }

    /// What closing the first tabs would interrupt, tab by tab.
    pub open spec fn busy_tabs(self, uses: Seq<TabUseModel>, n: nat) -> Seq<Seq<char>>
        decreases n,
    {
        if n == 0 {
            Seq::empty()
        } else {
            self.busy_tabs(uses, (n - 1) as nat) + self.busy((n - 1) as usize, None, uses)
        }
    }

    /// What closing something would interrupt.
    pub open spec fn busy_for(self, request: CloseRequest, uses: Seq<TabUseModel>) -> Seq<
        Seq<char>,
    > {
        match request {
            CloseRequest::Pane(index, id) => self.busy(index, Some(id), uses),
            CloseRequest::Tab(index) => self.busy(index, None, uses),
            CloseRequest::Window => self.busy_tabs(uses, self.tabs.len()),
            CloseRequest::Restart => self.busy_tabs(uses, self.tabs.len()),
        }
    }

    /// With something closed.
    pub open spec fn closing(self, request: CloseRequest, seen: Seq<(PaneId, Seq<char>)>) -> AppModel {
        match request {
            CloseRequest::Pane(index, id) => self.closing_pane(index, id, seen),
            CloseRequest::Tab(index) => self.closing_tab(index, seen),
            CloseRequest::Window => AppModel { close_confirmed: true, ..self },
            CloseRequest::Restart => self,
        }
    }

    /// With something closed right away, or a question about it when that would
    /// interrupt running programs.
    pub open spec fn asked_to_close(
        self,
        request: CloseRequest,
        uses: Seq<TabUseModel>,
        seen: Seq<(PaneId, Seq<char>)>,
    ) -> AppModel {
        let busy = self.busy_for(request, uses);
        if busy.len() == 0 {
            self.closing(request, seen)
        } else {
            AppModel { confirm_close: Some(ConfirmCloseModel { request, busy }), ..self }
        }
    }

    /// With the question about closing answered.
    pub open spec fn answered(self, close: bool, seen: Seq<(PaneId, Seq<char>)>) -> AppModel {
        match self.confirm_close {
            None => self,
            Some(c) => {
                let m = AppModel { confirm_close: None, ..self };
                if close {
                    m.closing(c.request, seen)
                } else {
                    AppModel { focus_terminal: true, ..m }
                }
            },
        }
    }
}

/// What is left to do of a close.
#[derive(Clone, Copy, PartialEq, Eq, Structural, Debug)]
pub enum Closing {
    Nothing,
    /// Close the window.
    Window,
    /// Save everything, start the updated app and close this one.
    Restart,
}

/// What is left to do to close something.
pub open spec fn left_to_close(request: CloseRequest) -> Closing {
    match request {
        CloseRequest::Pane(_, _) => Closing::Nothing,
        CloseRequest::Tab(_) => Closing::Nothing,
        CloseRequest::Window => Closing::Window,
        CloseRequest::Restart => Closing::Restart,
    }
}

impl Tab {
    /// What closing a pane would interrupt.
    pub fn interrupted(&self, title: Option<&str>, u: &PaneUse) -> (r: Option<String>)
        ensures
            opt_view(r) == interrupted(self@, crate::paths::str_view(title), u@),
    {
        if self.dead.contains(&u.id) || u.exited {
            return None;
        }
        if self.ssh.is_some() {
            let mut line = self.title(title);
            line.push_str("  ·  ssh");
            return Some(line);
        }
        match &u.program {
            Some(program) => {
                let mut line = self.title(title);
                line.push_str("  ·  ");
                line.push_str(program.as_str());
                if let Some(dir) = &u.dir {
                    line.push_str("  (");
                    line.push_str(dir.as_str());
                    line.push_str(")");
                }
                Some(line)
            },
            None => None,
        }
    }

    /// What closing panes of this tab (one, or all of them) would interrupt: programs
    /// running instead of the shell, and open SSH connections.
    pub fn busy(&self, only: Option<PaneId>, uses: &TabUse) -> (r: Vec<String>)
        ensures
            views(r@) == sorted(interruptions(self@, uses@.title, uses@.panes, only)),
    {
        let title: Option<&str> = match &uses.title {
            Some(t) => Some(t.as_str()),
            None => None,
        };
        let ghost all = uses@.panes;
        let mut busy: Vec<String> = Vec::new();
        let mut i: usize = 0;
        proof {
            assert(all.take(0) =~= Seq::empty());
            assert(views(busy@) =~= Seq::empty());
        }
        while i < uses.panes.len()
            invariant
                i <= uses.panes@.len(),
                all == models(uses.panes@),
                uses@.panes == all,
                crate::paths::str_view(title) == uses@.title,
                views(busy@) == interruptions(self@, uses@.title, all.take(i as int), only),
            decreases uses.panes.len() - i,
        {
            proof {
                assert(all.take(i + 1).drop_last() =~= all.take(i as int));
                assert(all.take(i + 1).last() == uses.panes@[i as int]@);
            }
            let skip = match only {
                Some(id) => id != uses.panes[i].id,
                None => false,
            };
            if !skip {
                if let Some(line) = self.interrupted(title, &uses.panes[i]) {
                    let ghost before = views(busy@);
                    busy.push(line);
                    assert(views(busy@) =~= before.push(line@));
                }
            }
            i += 1;
        }
        assert(all.take(i as int) =~= all);
        // Panes are in a map: give the list a stable order.
        sort_texts(&busy)
    }
}

impl App {
    /// What closing these panes of a tab would interrupt.
    pub fn busy(&self, index: usize, only: Option<PaneId>, uses: &Vec<TabUse>) -> (r: Vec<String>)
        requires
            uses@.len() == self.tabs@.len(),
        ensures
            views(r@) == self@.busy(index, only, models(uses@)),
    {
        if index < self.tabs.len() {
            assert(self@.tabs[index as int] == self.tabs@[index as int]@);
            assert(models(uses@)[index as int] == uses@[index as int]@);
            self.tabs[index].busy(only, &uses[index])
        } else {
            let none: Vec<String> = Vec::new();
            assert(views(none@) =~= Seq::empty());
            none
        }
    }

    /// What a close would interrupt.
    pub fn busy_for(&self, request: CloseRequest, uses: &Vec<TabUse>) -> (r: Vec<String>)
        requires
            uses@.len() == self.tabs@.len(),
        ensures
            views(r@) == self@.busy_for(request, models(uses@)),
    {
        match request {
            CloseRequest::Pane(index, id) => self.busy(index, Some(id), uses),
            CloseRequest::Tab(index) => self.busy(index, None, uses),
            _ => {
                let mut r: Vec<String> = Vec::new();
                let mut i: usize = 0;
                assert(views(r@) =~= Seq::empty());
                while i < self.tabs.len()
                    invariant
                        i <= self.tabs@.len(),
                        uses@.len() == self.tabs@.len(),
                        views(r@) == self@.busy_tabs(models(uses@), i as nat),
                    decreases self.tabs.len() - i,
                {
                    let ghost before = views(r@);
                    let mut more = self.busy(i, None, uses);
                    let ghost added = views(more@);
                    r.append(&mut more);
                    assert(views(r@) =~= before + added);
                    i += 1;
                }
                r
            },
        }
    }

    /// Closes right away, or asks first when that would interrupt running programs.
    /// `seen` are the directories that the terminals of the tab to close are in.
    pub fn request_close(
        &mut self,
        request: CloseRequest,
        uses: &Vec<TabUse>,
        seen: &Vec<(PaneId, String)>,
    ) -> (r: Closing)
        requires
            uses@.len() == old(self).tabs@.len(),
        ensures
            final(self)@ == old(self)@.asked_to_close(request, models(uses@), seen_views(seen@)),
            r == if old(self)@.busy_for(request, models(uses@)).len() == 0 {
                left_to_close(request)
            } else {
                Closing::Nothing
            },
            r == old(self)@.request_left(request, models(uses@)),
    {
        let busy = self.busy_for(request, uses);
        assert(busy@.len() == views(busy@).len());
        if busy.len() == 0 {
            self.do_close(request, seen)
        } else {
            self.confirm_close = Some(ConfirmClose { request, busy });
            Closing::Nothing
        }
    }

    /// Closes something.
    pub fn do_close(&mut self, request: CloseRequest, seen: &Vec<(PaneId, String)>) -> (r: Closing)
        ensures
            final(self)@ == old(self)@.closing(request, seen_views(seen@)),
            r == left_to_close(request),
    {
        match request {
            CloseRequest::Pane(index, id) => {
                self.close_pane(index, id, seen);
                Closing::Nothing
            },
            CloseRequest::Tab(index) => {
                self.close_tab(index, seen);
                Closing::Nothing
            },
            CloseRequest::Window => {
                self.close_confirmed = true;
                Closing::Window
            },
            CloseRequest::Restart => Closing::Restart,
        }
    }

    /// The "close anyway?" question was answered.
    pub fn answer_close(&mut self, close: bool, seen: &Vec<(PaneId, String)>) -> (r: Closing)
        ensures
            final(self)@ == old(self)@.answered(close, seen_views(seen@)),
            r == match old(self)@.confirm_close {
                Some(c) if close => left_to_close(c.request),
                _ => Closing::Nothing,
            },
            r == old(self)@.answer_left(close),
    {
        match self.confirm_close.take() {
            Some(c) => {
                if close {
                    self.do_close(c.request, seen)
                } else {
                    self.focus_terminal = true;
                    Closing::Nothing
                }
            },
            None => Closing::Nothing,
        }
    }

    /// The window is asked to close (red button, Cmd+Q...): asks first when programs
    /// are still running. Tells whether the close is cancelled.
    pub fn window_close(&mut self, uses: &Vec<TabUse>) -> (cancel: bool)
        requires
            uses@.len() == old(self).tabs@.len(),
        ensures
            ({
                let busy = old(self)@.busy_for(CloseRequest::Window, models(uses@));
                &&& cancel == (!old(self)@.close_confirmed && busy.len() > 0)
                &&& final(self)@ == if cancel {
                    AppModel {
                        confirm_close: Some(
                            ConfirmCloseModel { request: CloseRequest::Window, busy },
                        ),
                        ..old(self)@
                    }
                } else {
                    old(self)@
                }
            }),
            cancel == old(self)@.held_open(models(uses@)),
            final(self)@ == old(self)@.window_asked(models(uses@)),
    {
        if self.close_confirmed {
            return false;
        }
        let busy = self.busy_for(CloseRequest::Window, uses);
        assert(busy@.len() == views(busy@).len());
        if busy.len() == 0 {
            return false;
        }
        self.confirm_close = Some(ConfirmClose { request: CloseRequest::Window, busy });
        true
    }

    /// Hands the config over to a new instance, once everything is saved: nothing is
    /// written after this.
    pub fn hand_over(&mut self)
        ensures
            final(self)@ == (AppModel { read_only: true, ..old(self)@ }),
            final(self)@ == old(self)@.handed_over(),
    {
        self.read_only = true;
    }

    /// The updated app was started, or could not be. Tells whether this one closes.
    pub fn relaunched(&mut self, result: Result<(), String>, t: &Strings) -> (close: bool)
        ensures
            close == result is Ok,
            final(self)@ == match result {
                Ok(_) => AppModel { close_confirmed: true, ..old(self)@ },
                Err(e) => AppModel {
                    error: Some(caused(t.update_failed@, e@)),
                    ..old(self)@
                },
            },
            final(self)@ == old(self)@.relaunching(crate::session::failure(result), *t),
            close == ends_app(crate::session::failure(result)),
    {
        match result {
            Ok(_) => {
                self.close_confirmed = true;
                true
            },
            Err(e) => {
                self.error = Some(with_cause(t.update_failed, e.as_str()));
                false
            },
        }
    }

    /// Gets ready to erase everything: nothing may be written again before quitting
    /// (not even the session on exit). Gives the hosts whose password is to be forgotten.
    pub fn reset(&mut self) -> (hosts: Vec<u128>)
        ensures
            final(self)@ == (AppModel { read_only: true, config_writable: false, ..old(self)@ }),
            hosts@ == saved_passwords(old(self)@.config.ssh),
            final(self)@ == old(self)@.resetting(),
    {
        let ghost all = self@.config.ssh;
        let mut hosts: Vec<u128> = Vec::new();
        let mut i: usize = 0;
        assert(all.take(0) =~= Seq::empty());
        while i < self.config.ssh.len()
            invariant
                i <= self.config.ssh@.len(),
                all == models(self.config.ssh@),
                self@ == old(self)@,
                hosts@ == saved_passwords(all.take(i as int)),
            decreases self.config.ssh.len() - i,
        {
            proof {
                assert(all.take(i + 1).drop_last() =~= all.take(i as int));
                assert(all.take(i + 1).last() == self.config.ssh@[i as int]@);
            }
            if self.config.ssh[i].password_saved {
                hosts.push(self.config.ssh[i].id);
            }
            i += 1;
        }
        assert(all.take(i as int) =~= all);
        self.read_only = true;
        self.config_writable = false;
        hosts
    }

    /// Everything was erased and a new instance started, or something failed. Tells
    /// whether this one closes.
    pub fn reset_done(&mut self, result: Result<(), String>) -> (close: bool)
        ensures
            close == result is Ok,
            final(self)@ == match result {
                Ok(_) => AppModel { close_confirmed: true, ..old(self)@ },
                Err(e) => AppModel { error: Some(e@), ..old(self)@ },
            },
            final(self)@ == old(self)@.reset_over(crate::session::failure(result)),
            close == ends_app(crate::session::failure(result)),
    {
        match result {
            Ok(_) => {
                self.close_confirmed = true;
                true
            },
            Err(e) => {
                self.error = Some(e);
                false
            },
        }
    }
}

/// The hosts whose password is saved.
pub open spec fn saved_passwords(ssh: Seq<SshHostModel>) -> Seq<u128>
    decreases ssh.len(),
{
    if ssh.len() == 0 {
        Seq::empty()
    } else {
        let rest = saved_passwords(ssh.drop_last());
        if ssh.last().password_saved {
            rest.push(ssh.last().id)
        } else {
            rest
        }
    }
}

/// Nothing is closed while it would interrupt something: the tabs, the config and
/// the closed tabs stay as they are until the question is answered.
pub proof fn law_asks_first(
    m: AppModel,
    request: CloseRequest,
    uses: Seq<TabUseModel>,
    seen: Seq<(PaneId, Seq<char>)>,
)
    requires
        m.busy_for(request, uses).len() > 0,
    ensures
        ({
            let asked = m.asked_to_close(request, uses, seen);
            &&& asked == (AppModel { confirm_close: asked.confirm_close, ..m })
            &&& asked.confirm_close == Some(
                ConfirmCloseModel { request, busy: m.busy_for(request, uses) },
            )
        }),
{
}

/// Answering no changes nothing but the question, and answering yes does what would
/// have been done without asking.
pub proof fn law_answer(
    m: AppModel,
    request: CloseRequest,
    uses: Seq<TabUseModel>,
    seen: Seq<(PaneId, Seq<char>)>,
)
    requires
        m.confirm_close is None,
        m.busy_for(request, uses).len() > 0,
    ensures
        m.asked_to_close(request, uses, seen).answered(false, seen) == (AppModel {
            focus_terminal: true,
            ..m
        }),
        m.asked_to_close(request, uses, seen).answered(true, seen) == m.closing(request, seen),
{
    let asked = m.asked_to_close(request, uses, seen);
    assert(AppModel { confirm_close: None, ..asked } =~= m);
}

/// A tab without programs and connections closes without a question: closing it
/// interrupts something exactly where one of its panes is interrupted.
pub proof fn law_busy(m: AppModel, index: usize, uses: Seq<TabUseModel>)
    requires
        index < m.tabs.len(),
    ensures
        (m.busy(index, None, uses).len() == 0) == (forall|i: int|
            0 <= i < uses[index as int].panes.len() ==> interrupted(
                m.tabs[index as int],
                uses[index as int].title,
                #[trigger] uses[index as int].panes[i],
            ) is None),
{
    let t = m.tabs[index as int];
    let u = uses[index as int];
    law_sorted(interruptions(t, u.title, u.panes, None));
    lemma_interruptions(t, u.title, u.panes);
}

proof fn lemma_interruptions(t: TabModel, title: Option<Seq<char>>, panes: Seq<PaneUseModel>)
    ensures
        (interruptions(t, title, panes, None).len() == 0) == (forall|i: int|
            0 <= i < panes.len() ==> interrupted(t, title, #[trigger] panes[i]) is None),
    decreases panes.len(),
{
    if panes.len() > 0 {
        let front = panes.drop_last();
        lemma_interruptions(t, title, front);
        if interruptions(t, title, panes, None).len() == 0 {
            assert forall|i: int| 0 <= i < panes.len() implies interrupted(
                t,
                title,
                #[trigger] panes[i],
            ) is None by {
                if i < front.len() {
                    assert(front[i] == panes[i]);
                }
            }
        } else if forall|i: int|
            0 <= i < panes.len() ==> interrupted(t, title, #[trigger] panes[i]) is None {
            assert forall|i: int| 0 <= i < front.len() implies interrupted(
                t,
                title,
                #[trigger] front[i],
            ) is None by {
                assert(front[i] == panes[i]);
            }
            assert(interrupted(t, title, panes[panes.len() - 1]) is None);
        }
    }
}

impl AppModel {
    /// Whether the window stays open for a question.
    pub open spec fn held_open(self, uses: Seq<TabUseModel>) -> bool {
        !self.close_confirmed && self.busy_for(CloseRequest::Window, uses).len() > 0
    }

    /// After the window was asked to close.
    pub open spec fn window_asked(self, uses: Seq<TabUseModel>) -> AppModel {
        if self.held_open(uses) {
            AppModel {
                confirm_close: Some(
                    ConfirmCloseModel {
                        request: CloseRequest::Window,
                        busy: self.busy_for(CloseRequest::Window, uses),
                    },
                ),
                ..self
            }
        } else {
            self
        }
    }

    /// What is left to do after a request to close.
    pub open spec fn request_left(self, request: CloseRequest, uses: Seq<TabUseModel>) -> Closing {
        if self.busy_for(request, uses).len() == 0 {
            left_to_close(request)
        } else {
            Closing::Nothing
        }
    }

    /// What is left to do after an answer.
    pub open spec fn answer_left(self, close: bool) -> Closing {
        match self.confirm_close {
            Some(c) if close => left_to_close(c.request),
            _ => Closing::Nothing,
        }
    }

    /// From now on another one writes.
    pub open spec fn handed_over(self) -> AppModel {
        AppModel { read_only: true, ..self }
    }

    /// After the updated app was started, or failed to.
    pub open spec fn relaunching(self, failure: Option<Seq<char>>, t: Strings) -> AppModel {
        match failure {
            None => AppModel { close_confirmed: true, ..self },
            Some(e) => AppModel { error: Some(caused(t.update_failed@, e)), ..self },
        }
    }

    /// While everything is put aside: nothing is written any more.
    pub open spec fn resetting(self) -> AppModel {
        AppModel { read_only: true, config_writable: false, ..self }
    }

    /// After everything was put aside, or failed to be.
    pub open spec fn reset_over(self, failure: Option<Seq<char>>) -> AppModel {
        match failure {
            None => AppModel { close_confirmed: true, ..self },
            Some(e) => AppModel { error: Some(e), ..self },
        }
    }
}

/// Whether the app ends after what it tried.
pub open spec fn ends_app(failure: Option<Seq<char>>) -> bool {
    failure is None
}

} // verus!
