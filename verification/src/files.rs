//! The file manager of an SSH tab, FileZilla style: this computer on the left, the server on the right,
//! transfers by drag and drop or buttons, a queue with progress at the bottom, and rename / delete /
//! new folder / permissions on either side.

use crate::model::{lemma_push, models};
use crate::names::{increasing, Names};
use crate::panel::{names_of, Panel, PanelModel};
use crate::paths::{join_any, seen_from};
use crate::sftp::{
    join, joined_path, parent, parent_path, Entry, EntryModel, Event, EventModel, Request,
    RequestModel,
};
use crate::shortcut::Platform;
use crate::text::{
    begins, decimal, holds, last_place, opt_view, push_numeral, same_str, split, to_chars, views,
};
use vstd::prelude::*;

verus! {

/// Where a panel's files are.
#[derive(Clone, Copy, PartialEq, Eq, Structural, Debug)]
pub enum Side {
    Local,
    Remote,
}

impl Side {
    pub open spec fn opposite(self) -> Side {
        match self {
            Side::Local => Side::Remote,
            Side::Remote => Side::Local,
        }
    }

    /// The other side.
    pub fn other(self) -> (r: Side)
        ensures
            r == self.opposite(),
    {
        match self {
            Side::Local => Side::Remote,
            Side::Remote => Side::Local,
        }
    }
}

#[derive(Debug)]
pub enum TransferState {
    Queued,
    Running,
    Done,
    Failed(String),
}

#[verifier::ext_equal]
pub enum TransferStateModel {
    Queued,
    Running,
    Done,
    Failed(Seq<char>),
}

impl View for TransferState {
    type V = TransferStateModel;

    open spec fn view(&self) -> TransferStateModel {
        match *self {
            TransferState::Queued => TransferStateModel::Queued,
            TransferState::Running => TransferStateModel::Running,
            TransferState::Done => TransferStateModel::Done,
            TransferState::Failed(e) => TransferStateModel::Failed(e@),
        }
    }
}

/// A transfer of the queue.
#[derive(Debug)]
pub struct Transfer {
    pub id: u64,
    pub upload: bool,
    pub label: String,
    pub done: u64,
    pub total: u64,
    pub current: String,
    pub state: TransferState,
}

#[verifier::ext_equal]
pub struct TransferModel {
    pub id: u64,
    pub upload: bool,
    pub label: Seq<char>,
    pub done: u64,
    pub total: u64,
    pub current: Seq<char>,
    pub state: TransferStateModel,
}

impl View for Transfer {
    type V = TransferModel;

    open spec fn view(&self) -> TransferModel {
        TransferModel {
            id: self.id,
            upload: self.upload,
            label: self.label@,
            done: self.done,
            total: self.total,
            current: self.current@,
            state: self.state@,
        }
    }
}

/// Whether a transfer is not finished yet.
pub open spec fn pending(t: TransferModel) -> bool {
    t.state is Queued || t.state is Running
}

impl Transfer {
    /// Whether it is not finished yet.
    pub fn is_pending(&self) -> (r: bool)
        ensures
            r == pending(self@),
    {
        match self.state {
            TransferState::Queued => true,
            TransferState::Running => true,
            _ => false,
        }
    }
}

/// A dialog of the file manager.
#[derive(Debug)]
pub enum Dialog {
    Rename { side: Side, from: String, text: String, fresh: bool },
    Mkdir { side: Side, text: String, fresh: bool },
    Delete { side: Side, names: Vec<String> },
    Chmod { names: Vec<String>, mode: u32, octal: String, recursive: bool, any_dir: bool },
    /// Some of the files to transfer already exist on the other side.
    Conflict { from: Side, names: Vec<String>, target: String, existing: Vec<String> },
}

#[verifier::ext_equal]
pub enum DialogModel {
    Rename { side: Side, from: Seq<char>, text: Seq<char>, fresh: bool },
    Mkdir { side: Side, text: Seq<char>, fresh: bool },
    Delete { side: Side, names: Seq<Seq<char>> },
    Chmod { names: Seq<Seq<char>>, mode: u32, octal: Seq<char>, recursive: bool, any_dir: bool },
    Conflict { from: Side, names: Seq<Seq<char>>, target: Seq<char>, existing: Seq<Seq<char>> },
}

impl View for Dialog {
    type V = DialogModel;

    open spec fn view(&self) -> DialogModel {
        match *self {
            Dialog::Rename { side, from, text, fresh } => DialogModel::Rename {
                side,
                from: from@,
                text: text@,
                fresh,
            },
            Dialog::Mkdir { side, text, fresh } => DialogModel::Mkdir { side, text: text@, fresh },
            Dialog::Delete { side, names } => DialogModel::Delete { side, names: views(names@) },
            Dialog::Chmod { names, mode, octal, recursive, any_dir } => DialogModel::Chmod {
                names: views(names@),
                mode,
                octal: octal@,
                recursive,
                any_dir,
            },
            Dialog::Conflict { from, names, target, existing } => DialogModel::Conflict {
                from,
                names: views(names@),
                target: target@,
                existing: views(existing@),
            },
        }
    }
}

pub open spec fn dialog_view(d: Option<Dialog>) -> Option<DialogModel> {
    match d {
        Some(d) => Some(d@),
        None => None,
    }
}

#[derive(Debug)]
pub enum Status {
    Connecting,
    Ready,
    Closed(String),
}

#[verifier::ext_equal]
pub enum StatusModel {
    Connecting,
    Ready,
    Closed(Seq<char>),
}

impl View for Status {
    type V = StatusModel;

    open spec fn view(&self) -> StatusModel {
        match *self {
            Status::Connecting => StatusModel::Connecting,
            Status::Ready => StatusModel::Ready,
            Status::Closed(e) => StatusModel::Closed(e@),
        }
    }
}

/// The file manager of an SSH tab.
#[derive(Debug)]
pub struct FileManager {
    pub host: u128,
    /// Whether there is a session to send requests to.
    pub connected: bool,
    /// Requests to send, in order.
    pub outbox: Vec<Request>,
    pub status: Status,
    pub local: Panel,
    pub remote: Panel,
    pub transfers: Vec<Transfer>,
    pub next_id: u64,
    pub dialog: Option<Dialog>,
    pub error: Option<String>,
    pub show_hidden: bool,
    /// The panel the keyboard acts on (last clicked).
    pub active: Side,
    pub platform: Platform,
}

#[verifier::ext_equal]
pub struct FileManagerModel {
    pub host: u128,
    pub connected: bool,
    pub outbox: Seq<RequestModel>,
    pub status: StatusModel,
    pub local: PanelModel,
    pub remote: PanelModel,
    pub transfers: Seq<TransferModel>,
    pub next_id: u64,
    pub dialog: Option<DialogModel>,
    pub error: Option<Seq<char>>,
    pub show_hidden: bool,
    pub active: Side,
    pub platform: Platform,
}

impl View for FileManager {
    type V = FileManagerModel;

    open spec fn view(&self) -> FileManagerModel {
        FileManagerModel {
            host: self.host,
            connected: self.connected,
            outbox: models(self.outbox@),
            status: self.status@,
            local: self.local@,
            remote: self.remote@,
            transfers: models(self.transfers@),
            next_id: self.next_id,
            dialog: dialog_view(self.dialog),
            error: opt_view(self.error),
            show_hidden: self.show_hidden,
            active: self.active,
            platform: self.platform,
        }
    }
}

/// Where the transfer of an id stands, or the length of the list.
pub open spec fn transfer_place(s: Seq<TransferModel>, id: u64) -> int
    decreases s.len(),
{
    if s.len() == 0 || s[0].id == id {
        0
    } else {
        1 + transfer_place(s.drop_first(), id)
    }
}

pub proof fn lemma_transfer_place(s: Seq<TransferModel>, id: u64, n: int)
    requires
        0 <= n <= s.len(),
        forall|j: int| 0 <= j < n ==> (#[trigger] s[j]).id != id,
        n < s.len() ==> s[n].id == id,
    ensures
        transfer_place(s, id) == n,
    decreases n,
{
    if n > 0 {
        let rest = s.drop_first();
        assert forall|j: int| 0 <= j < n - 1 implies (#[trigger] rest[j]).id != id by {
            assert(rest[j] == s[j + 1]);
        }
        lemma_transfer_place(rest, id, n - 1);
    }
}

/// A transfer that the end of the connection breaks off.
pub open spec fn broken_off(t: TransferModel) -> TransferModel {
    if pending(t) {
        TransferModel { state: TransferStateModel::Failed(Seq::empty()), ..t }
    } else {
        t
    }
}

impl FileManagerModel {
    /// Whether the selections are in order.
    pub open spec fn wf(self) -> bool {
        increasing(self.local.selected) && increasing(self.remote.selected)
    }

    /// With one more request to send, if there is a session.
    pub open spec fn sending(self, r: RequestModel) -> FileManagerModel {
        if self.connected {
            FileManagerModel { outbox: self.outbox.push(r), ..self }
        } else {
            self
        }
    }

    /// Asking for the listing of the remote folder, where there is one.
    pub open spec fn listing(self) -> FileManagerModel {
        if self.remote.path.len() > 0 {
            FileManagerModel {
                remote: PanelModel { loading: true, ..self.remote },
                ..self
            }.sending(RequestModel::List(self.remote.path))
        } else {
            self
        }
    }

    /// A folder that can't be listed: the panel stays where it was.
    pub open spec fn list_failed(self, error: Seq<char>) -> FileManagerModel {
        let back = self.remote.path != self.remote.path_text && self.remote.path_text.len() > 0;
        FileManagerModel {
            remote: PanelModel {
                loading: false,
                path: if back {
                    self.remote.path_text
                } else {
                    self.remote.path
                },
                ..self.remote
            },
            error: Some(error),
            ..self
        }
    }

    /// With the transfer of an id changed, if there is one.
    pub open spec fn with_transfer(self, id: u64, t: TransferModel) -> FileManagerModel {
        let i = transfer_place(self.transfers, id);
        if 0 <= i < self.transfers.len() {
            FileManagerModel { transfers: self.transfers.update(i, t), ..self }
        } else {
            self
        }
    }

    /// The transfer of an id.
    pub open spec fn transfer_of(self, id: u64) -> TransferModel {
        self.transfers[transfer_place(self.transfers, id)]
    }

    /// What an event that the session sent leads to.
    pub open spec fn polled(self, e: EventModel) -> FileManagerModel {
        match e {
            EventModel::Connected { home } => FileManagerModel {
                status: StatusModel::Ready,
                remote: PanelModel {
                    path: if self.remote.path.len() == 0 {
                        home
                    } else {
                        self.remote.path
                    },
                    ..self.remote
                },
                ..self
            }.listing(),
            EventModel::Listing { path, entries } => if path == self.remote.path {
                FileManagerModel {
                    remote: (PanelModel { loading: false, ..self.remote }).showing(entries),
                    ..self
                }
            } else {
                self
            },
            EventModel::Changed => self.listing(),
            EventModel::ListFailed { error, .. } => self.list_failed(error),
            EventModel::Error(error) => self.list_failed(error),
            EventModel::Progress { id, done, total, current } => self.with_transfer(
                id,
                TransferModel {
                    done,
                    total,
                    current,
                    state: TransferStateModel::Running,
                    ..self.transfer_of(id)
                },
            ),
            EventModel::Finished { id, result } => self.with_transfer(
                id,
                TransferModel {
                    state: match result {
                        Ok(_) => TransferStateModel::Done,
                        Err(e) => TransferStateModel::Failed(e),
                    },
                    ..self.transfer_of(id)
                },
            ),
            EventModel::Closed(reason) => FileManagerModel {
                status: StatusModel::Closed(reason),
                transfers: self.transfers.map_values(|t: TransferModel| broken_off(t)),
                ..self
            },
        }
    }

    pub open spec fn panel(self, side: Side) -> PanelModel {
        match side {
            Side::Local => self.local,
            Side::Remote => self.remote,
        }
    }

    /// The path of a name in the folder of a side.
    pub open spec fn path_of(self, side: Side, name: Seq<char>) -> Seq<char> {
        match side {
            Side::Local => seen_from(self.local.path, name, self.platform),
            Side::Remote => joined_path(self.remote.path, name),
        }
    }

    /// The paths of names in the folder of a side.
    pub open spec fn paths_of(self, side: Side, names: Seq<Seq<char>>) -> Seq<Seq<char>> {
        names.map_values(|n: Seq<char>| self.path_of(side, n))
    }

    /// With a transfer started.
    pub open spec fn started(
        self,
        from: Side,
        names: Seq<Seq<char>>,
        target: Seq<char>,
        overwrite: bool,
    ) -> FileManagerModel {
        let id = self.next_id;
        let paths = self.paths_of(from, names);
        let after = FileManagerModel { next_id: (id + 1) as u64, ..self }.sending(
            match from {
                Side::Local => RequestModel::Upload { id, local: paths, remote_dir: target, overwrite },
                Side::Remote => RequestModel::Download {
                    id,
                    remote: paths,
                    local_dir: target,
                    overwrite,
                },
            },
        );
        FileManagerModel {
            transfers: self.transfers.push(
                TransferModel {
                    id,
                    upload: from is Local,
                    label: transfer_label(names),
                    done: 0,
                    total: 0,
                    current: Seq::empty(),
                    state: TransferStateModel::Queued,
                },
            ),
            ..after
        }
    }

    /// The names that exist already where they would go.
    pub open spec fn existing(self, from: Side, names: Seq<Seq<char>>, target: Seq<char>) -> Seq<
        Seq<char>,
    > {
        let there = self.panel(from.opposite());
        if target == there.path {
            names.filter(|n: Seq<char>| names_of(there.entries).contains(n))
        } else {
            Seq::empty()
        }
    }

    /// What asking for a transfer leads to: nothing without names or a session; a
    /// question where some exist already; else the transfer.
    pub open spec fn transferring(
        self,
        from: Side,
        names: Seq<Seq<char>>,
        target: Option<Seq<char>>,
    ) -> FileManagerModel {
        let into = match target {
            Some(t) => t,
            None => self.panel(from.opposite()).path,
        };
        let existing = self.existing(from, names, into);
        if names.len() == 0 || !self.connected {
            self
        } else if existing.len() == 0 {
            self.started(from, names, into, false)
        } else {
            FileManagerModel {
                dialog: Some(DialogModel::Conflict { from, names, target: into, existing }),
                ..self
            }
        }
    }
}

/// What the queue calls a transfer: the first name, and how many more.
pub open spec fn transfer_label(names: Seq<Seq<char>>) -> Seq<char> {
    if names.len() == 1 {
        names[0]
    } else {
        names[0] + "  +"@ + decimal((names.len() - 1) as nat)
    }
}

impl FileManagerModel {
    /// The file manager of a host, in some folders, not connected.
    pub open spec fn fresh(
        host: u128,
        local: Seq<char>,
        remote: Option<Seq<char>>,
        platform: Platform,
    ) -> FileManagerModel {
        FileManagerModel {
            host,
            connected: false,
            outbox: Seq::empty(),
            status: StatusModel::Connecting,
            local: PanelModel::fresh(local),
            remote: PanelModel::fresh(
                match remote {
                    Some(p) => p,
                    None => Seq::empty(),
                },
            ),
            transfers: Seq::empty(),
            next_id: 1,
            dialog: None,
            error: None,
            show_hidden: false,
            active: Side::Remote,
            platform,
        }
    }

    /// With a session opened, or with why it could not be.
    pub open spec fn opened(self, error: Option<Seq<char>>) -> FileManagerModel {
        match error {
            None => FileManagerModel {
                connected: true,
                status: StatusModel::Connecting,
                error: None,
                ..self
            },
            Some(e) => FileManagerModel { status: StatusModel::Closed(e), ..self },
        }
    }
}

/// Whether a path is made of ordinary parts: none of them is empty (but for the
/// start of an absolute path) or ".", and nothing in it could be a drive.
pub open spec fn ordinary(path: Seq<char>) -> bool {
    let parts = split(path, '/');
    &&& path.len() > 0
    &&& path != seq!['/']
    &&& !path.contains('\\')
    &&& !path.contains(':')
    &&& forall|i: int|
        0 <= i < parts.len() ==> (i > 0 ==> (#[trigger] parts[i]).len() > 0) && parts[i] != seq!['.']
}

/// A path without what follows its last "/": nothing where it has none, "/" where
/// that is the first.
pub open spec fn above(path: Seq<char>) -> Seq<char> {
    let n = last_place(path, '/');
    if n < 0 {
        Seq::empty()
    } else if n == 0 {
        seq!['/']
    } else {
        path.take(n)
    }
}

/// `std::path::Path::parent`: a local path without its final part, or none where
/// it ends at a root or has no part. What is left is the start of the path. What
/// the parts are depends on the system, so the result is stated for paths that
/// every system takes apart alike.
#[verifier::external_body]
fn local_parent(path: &str) -> (r: Option<String>)
    ensures
        r matches Some(p) ==> begins(path@, p@) && p@.len() < path@.len(),
        path@.len() == 0 ==> r is None,
        ordinary(path@) ==> opt_view(r) == Some(above(path@)),
{
    std::path::Path::new(path).parent().map(|p| p.display().to_string())
}

/// The folder above a path, given what a local path is without its final part: a
/// local root is its own parent.
pub fn parent_or_self(path: &str, parent: Option<String>) -> (r: String)
    ensures
        r@ == match parent {
            Some(p) => p@,
            None => path@,
        },
{
    match parent {
        Some(p) => p,
        None => path.to_owned(),
    }
}

/// The folder above a path of a side.
pub fn parent_of(side: Side, path: &str) -> (r: String)
    ensures
        side is Remote ==> r@ == parent_path(path@),
        side is Local ==> begins(path@, r@),
        side is Local && ordinary(path@) ==> r@ == above(path@),
{
    match side {
        Side::Local => {
            assert(path@.take(path@.len() as int) =~= path@);
            parent_or_self(path, local_parent(path))
        },
        Side::Remote => parent(path),
    }
}

impl FileManager {
    /// Whether the selections are in order.
    pub open spec fn wf(&self) -> bool {
        self@.wf()
    }

    /// Starts in the host's last folders: `local` is one that exists, or the home directory.
    pub fn new(host: u128, local: String, remote: Option<String>, platform: Platform) -> (r:
        FileManager)
        ensures
            r.wf(),
            r@ == FileManagerModel::fresh(host, local@, opt_view(remote), platform),
    {
        let path = match remote {
            Some(p) => p,
            None => {
                let e = String::new();
                assert(e@ =~= Seq::empty());
                e
            },
        };
        let r = FileManager {
            host,
            connected: false,
            outbox: Vec::new(),
            status: Status::Connecting,
            local: Panel::new(local),
            remote: Panel::new(path),
            transfers: Vec::new(),
            next_id: 1,
            dialog: None,
            error: None,
            show_hidden: false,
            active: Side::Remote,
            platform,
        };
        assert(r@.outbox =~= Seq::empty());
        assert(r@.transfers =~= Seq::empty());
        r
    }

    /// Notes that a session was opened, or why it could not be.
    pub fn connect(&mut self, opened: Result<(), String>)
        ensures
            final(self)@ == old(self)@.opened(
                match opened {
                    Ok(_) => None,
                    Err(e) => Some(e@),
                },
            ),
    {
        match opened {
            Ok(_) => {
                self.connected = true;
                self.status = Status::Connecting;
                self.error = None;
            },
            Err(e) => {
                self.status = Status::Closed(e);
            },
        }
    }

    /// Transfers not finished yet (to warn before closing).
    pub fn busy(&self) -> (r: bool)
        ensures
            r == exists|i: int| 0 <= i < self@.transfers.len() && pending(#[trigger] self@.transfers[i]),
            r == self@.transferring_now(),
    {
        let mut i: usize = 0;
        while i < self.transfers.len()
            invariant
                i <= self.transfers@.len(),
                forall|j: int| 0 <= j < i ==> !pending(#[trigger] self@.transfers[j]),
            decreases self.transfers.len() - i,
        {
            if self.transfers[i].is_pending() {
                assert(pending(self@.transfers[i as int]));
                return true;
            }
            i += 1;
        }
        false
    }

    /// The folders to remember for the host: (local, remote).
    pub fn folders(&self) -> (r: (String, Option<String>))
        ensures
            r.0@ == self@.local.path,
            opt_view(r.1) == if self@.remote.path.len() == 0 {
                None::<Seq<char>>
            } else {
                Some(self@.remote.path)
            },
            opt_view(r.1) == self@.remote_folder(),
    {
        let remote = if to_chars(self.remote.path.as_str()).len() == 0 {
            None
        } else {
            Some(self.remote.path.clone())
        };
        (self.local.path.clone(), remote)
    }

    /// Sends a request, if there is a session.
    pub fn send(&mut self, request: Request)
        ensures
            final(self)@ == old(self)@.sending(request@),
    {
        if self.connected {
            let ghost before = self.outbox@;
            self.outbox.push(request);
            proof {
                lemma_push(before, request);
            }
        }
    }

    /// Asks for the listing of the remote folder.
    pub fn list_remote(&mut self)
        ensures
            final(self)@ == old(self)@.listing(),
    {
        if to_chars(self.remote.path.as_str()).len() > 0 {
            self.remote.loading = true;
            let path = self.remote.path.clone();
            self.send(Request::List(path));
        }
    }

    fn list_failed(&mut self, error: String)
        ensures
            final(self)@ == old(self)@.list_failed(error@),
    {
        self.remote.loading = false;
        if !same_str(self.remote.path.as_str(), self.remote.path_text.as_str()) && to_chars(
            self.remote.path_text.as_str(),
        ).len() > 0 {
            self.remote.path = self.remote.path_text.clone();
        }
        self.error = Some(error);
    }

    fn find_transfer(&self, id: u64) -> (r: usize)
        ensures
            r == transfer_place(self@.transfers, id),
            r <= self.transfers@.len(),
    {
        let mut i: usize = 0;
        while i < self.transfers.len() && self.transfers[i].id != id
            invariant
                i <= self.transfers@.len(),
                forall|j: int| 0 <= j < i ==> (#[trigger] self@.transfers[j]).id != id,
            decreases self.transfers.len() - i,
        {
            i += 1;
        }
        proof {
            lemma_transfer_place(self@.transfers, id, i as int);
        }
        i
    }

    /// Handles what the session sent: one event. Tells whether the local folder is
    /// to be read again. Called for every tab (transfers go on in the background).
    pub fn poll(&mut self, event: Event) -> (read_local: bool)
        requires
            old(self).wf(),
        ensures
            final(self).wf(),
            final(self)@ == old(self)@.polled(event@),
            read_local == event@ is Finished,
            read_local == reads_local(event@),
    {
        match event {
            Event::Connected { home } => {
                self.status = Status::Ready;
                if to_chars(self.remote.path.as_str()).len() == 0 {
                    self.remote.path = home;
                }
                self.list_remote();
                false
            },
            Event::Listing { path, entries } => {
                if same_str(path.as_str(), self.remote.path.as_str()) {
                    self.remote.loading = false;
                    self.remote.show(entries);
                }
                false
            },
            Event::Changed => {
                self.list_remote();
                false
            },
            Event::ListFailed { path, error } => {
                self.list_failed(error);
                false
            },
            Event::Error(error) => {
                self.list_failed(error);
                false
            },
            Event::Progress { id, done, total, current } => {
                let i = self.find_transfer(id);
                let ghost before = self.transfers@;
                if i < self.transfers.len() {
                    self.transfers[i].done = done;
                    self.transfers[i].total = total;
                    self.transfers[i].current = current;
                    self.transfers[i].state = TransferState::Running;
                    proof {
                        assert(models(self.transfers@) =~= models(before).update(
                            i as int,
                            self.transfers@[i as int]@,
                        ));
                    }
                }
                false
            },
            Event::Finished { id, result } => {
                let i = self.find_transfer(id);
                let ghost before = self.transfers@;
                if i < self.transfers.len() {
                    self.transfers[i].state = match result {
                        Ok(_) => TransferState::Done,
                        Err(e) => TransferState::Failed(e),
                    };
                    proof {
                        assert(models(self.transfers@) =~= models(before).update(
                            i as int,
                            self.transfers@[i as int]@,
                        ));
                    }
                }
                true
            },
            Event::Closed(reason) => {
                self.break_off();
                self.status = Status::Closed(reason);
                false
            },
        }
    }

    fn break_off(&mut self)
        ensures
            final(self)@ == (FileManagerModel {
                transfers: old(self)@.transfers.map_values(|t: TransferModel| broken_off(t)),
                ..old(self)@
            }),
    {
        let ghost m = self@;
        let mut i: usize = 0;
        while i < self.transfers.len()
            invariant
                i <= self.transfers@.len(),
                self.transfers@.len() == m.transfers.len(),
                forall|j: int|
                    0 <= j < i ==> (#[trigger] self.transfers@[j])@ == broken_off(m.transfers[j]),
                forall|j: int|
                    i <= j < m.transfers.len() ==> (#[trigger] self.transfers@[j])@
                        == m.transfers[j],
                self@ == (FileManagerModel { transfers: self@.transfers, ..m }),
            decreases self.transfers.len() - i,
        {
            if self.transfers[i].is_pending() {
                let none = String::new();
                assert(none@ =~= Seq::empty());
                self.transfers[i].state = TransferState::Failed(none);
            }
            i += 1;
        }
        assert(self@.transfers =~= m.transfers.map_values(|t: TransferModel| broken_off(t)));
    }

    /// Forgets the session once it is over. Called after the events were handled.
    pub fn after_poll(&mut self)
        ensures
            final(self)@ == (FileManagerModel {
                connected: old(self).connected && !(old(self).status is Closed),
                ..old(self)@
            }),
            final(self)@ == old(self)@.hung_up(),
    {
        if let Status::Closed(_) = self.status {
            self.connected = false;
        }
    }

    /// The panel of a side.
    pub fn panel(&mut self, side: Side) -> (r: &mut Panel)
        ensures
            r@ == old(self)@.panel(side),
            final(self)@ == match side {
                Side::Local => FileManagerModel { local: final(r)@, ..old(self)@ },
                Side::Remote => FileManagerModel { remote: final(r)@, ..old(self)@ },
            },
            final(self)@ == old(self)@.with_panel(side, final(r)@),
    {
        match side {
            Side::Local => &mut self.local,
            Side::Remote => &mut self.remote,
        }
    }

    /// The path of a name in the folder of a side.
    pub fn path_of(&self, side: Side, name: &str) -> (r: String)
        ensures
            r@ == self@.path_of(side, name@),
    {
        match side {
            Side::Local => join_any(self.local.path.as_str(), name, self.platform),
            Side::Remote => join(self.remote.path.as_str(), name),
        }
    }

    /// The paths of names in the folder of a side.
    pub fn paths_of(&self, side: Side, names: &Vec<String>) -> (r: Vec<String>)
        ensures
            views(r@) == self@.paths_of(side, views(names@)),
    {
        let mut r: Vec<String> = Vec::new();
        let mut i: usize = 0;
        let ghost all = self@.paths_of(side, views(names@));
        while i < names.len()
            invariant
                i <= names@.len(),
                all == self@.paths_of(side, views(names@)),
                views(r@) == all.take(i as int),
            decreases names.len() - i,
        {
            let ghost before = views(r@);
            let p = self.path_of(side, names[i].as_str());
            r.push(p);
            assert(views(r@) =~= before.push(all[i as int]));
            assert(all.take(i + 1) =~= all.take(i as int).push(all[i as int]));
            i += 1;
        }
        assert(all.take(i as int) =~= all);
        r
    }

    /// Shows what was read of the local folder, or why it could not be read.
    pub fn read_local(&mut self, read: Result<Vec<Entry>, String>)
        requires
            old(self).wf(),
        ensures
            final(self).wf(),
            final(self)@ == match read {
                Ok(entries) => FileManagerModel {
                    local: old(self)@.local.showing(models(entries@)),
                    ..old(self)@
                },
                Err(e) => FileManagerModel {
                    error: Some(old(self)@.local.path + " : "@ + e@),
                    ..old(self)@
                },
            },
            final(self)@ == old(self)@.local_read(read_result(read)),
    {
        match read {
            Ok(entries) => self.local.show(entries),
            Err(e) => {
                let mut s = self.local.path.clone();
                s.push_str(" : ");
                s.push_str(e.as_str());
                self.error = Some(s);
            },
        }
    }

    /// Goes to a folder. For the local side, gives the folder it was on: the new
    /// one is to be read, then `settle_local` tells whether it can stay.
    pub fn open_dir(&mut self, side: Side, path: String) -> (previous: Option<String>)
        requires
            old(self).wf(),
        ensures
            final(self).wf(),
            match side {
                Side::Local => opt_view(previous) == Some(old(self)@.local.path) && final(self)@ == (
                FileManagerModel {
                    local: PanelModel { path: path@, selected: Seq::empty(), ..old(self)@.local },
                    ..old(self)@
                }),
                Side::Remote => previous is None && final(self)@ == (FileManagerModel {
                    remote: PanelModel {
                        path: path@,
                        path_text: old(self)@.remote.path,
                        selected: Seq::empty(),
                        ..old(self)@.remote
                    },
                    ..old(self)@
                }).listing(),
            },
            final(self)@ == old(self)@.gone(side, path@),
    {
        match side {
            Side::Local => {
                let previous = self.local.path.clone();
                self.local.path = path;
                self.local.selected = Names::new();
                Some(previous)
            },
            Side::Remote => {
                self.remote.path_text = self.remote.path.clone();
                self.remote.path = path;
                self.remote.selected = Names::new();
                self.list_remote();
                None
            },
        }
    }

    /// After a local folder was read: goes back to the one before if there was an
    /// error and it is no folder.
    pub fn settle_local(&mut self, previous: String, is_dir: bool)
        ensures
            final(self)@ == if old(self)@.error is Some && !is_dir {
                FileManagerModel {
                    local: PanelModel { path: previous@, ..old(self)@.local },
                    ..old(self)@
                }
            } else {
                old(self)@
            },
            final(self)@ == old(self)@.settled(previous@, is_dir),
    {
        if self.error.is_some() && !is_dir {
            self.local.path = previous;
        }
    }

    fn existing(&self, from: Side, names: &Vec<String>, target: &str) -> (r: Vec<String>)
        ensures
            views(r@) == self@.existing(from, views(names@), target@),
    {
        let there = match from {
            Side::Local => &self.remote,
            Side::Remote => &self.local,
        };
        let mut r: Vec<String> = Vec::new();
        if !same_str(target, there.path.as_str()) {
            assert(views(r@) =~= Seq::empty());
            return r;
        }
        let entries = there.entry_names();
        let ghost all = views(names@);
        let ghost e = names_of(self@.panel(from.opposite()).entries);
        let mut i: usize = 0;
        proof {
            reveal(Seq::filter);
            assert(all.take(0) =~= Seq::empty());
            assert(views(r@) =~= all.take(0).filter(|n: Seq<char>| e.contains(n)));
        }
        while i < names.len()
            invariant
                i <= names@.len(),
                all == views(names@),
                views(entries@) == e,
                views(r@) == all.take(i as int).filter(|n: Seq<char>| e.contains(n)),
            decreases names.len() - i,
        {
            proof {
                reveal(Seq::filter);
                assert(all.take(i + 1).drop_last() =~= all.take(i as int));
            }
            let ghost before = views(r@);
            if holds(&entries, names[i].as_str()) {
                r.push(names[i].clone());
                assert(views(r@) =~= before.push(all[i as int]));
            }
            i += 1;
        }
        assert(all.take(i as int) =~= all);
        r
    }

    /// Transfers `names` of `from` into the other side's `target` directory, asking first when some
    /// already exist there.
    pub fn transfer(&mut self, from: Side, names: Vec<String>, target: Option<String>)
        requires
            old(self).next_id < u64::MAX,
        ensures
            final(self)@ == old(self)@.transferring(from, views(names@), opt_view(target)),
    {
        if names.len() == 0 || !self.connected {
            return;
        }
        let into = match target {
            Some(t) => t,
            None => match from {
                Side::Local => self.remote.path.clone(),
                Side::Remote => self.local.path.clone(),
            },
        };
        let existing = self.existing(from, &names, into.as_str());
        assert(views(existing@).len() == existing@.len());
        if existing.len() == 0 {
            self.start_transfer(from, names, into, false);
        } else {
            self.dialog = Some(Dialog::Conflict { from, names, target: into, existing });
        }
    }

    /// Starts a transfer.
    pub fn start_transfer(&mut self, from: Side, names: Vec<String>, target: String, overwrite: bool)
        requires
            names@.len() > 0,
            old(self).next_id < u64::MAX,
        ensures
            final(self)@ == old(self)@.started(from, views(names@), target@, overwrite),
    {
        let ghost m = self@;
        let id = self.next_id;
        let mut label = names[0].clone();
        if names.len() > 1 {
            label.push_str("  +");
            push_numeral(&mut label, (names.len() - 1) as u64, 10);
        }
        assert(label@ =~= transfer_label(views(names@)));
        let paths = self.paths_of(from, &names);
        self.next_id = id + 1;
        let request = match from {
            Side::Local => Request::Upload { id, local: paths, remote_dir: target, overwrite },
            Side::Remote => Request::Download { id, remote: paths, local_dir: target, overwrite },
        };
        self.send(request);
        let ghost before = self.transfers@;
        let none = String::new();
        assert(none@ =~= Seq::empty());
        let t = Transfer {
            id,
            upload: from == Side::Local,
            label,
            done: 0,
            total: 0,
            current: none,
            state: TransferState::Queued,
        };
        self.transfers.push(t);
        proof {
            lemma_push(before, t);
            assert(self@ =~= m.started(from, views(names@), target@, overwrite));
        }
    }

    /// Clears the queue of what is finished, and the error shown.
    pub fn clear(&mut self)
        ensures
            final(self)@ == (FileManagerModel {
                transfers: old(self)@.transfers.filter(|t: TransferModel| pending(t)),
                error: None,
                ..old(self)@
            }),
            final(self)@ == old(self)@.cleared(),
    {
        let ghost m = self@;
        let ghost p = |t: TransferModel| pending(t);
        let mut kept: Vec<Transfer> = Vec::new();
        let mut rest: Vec<Transfer> = Vec::new();
        rest.append(&mut self.transfers);
        let ghost all = rest@;
        proof {
            reveal(Seq::filter);
            assert(models(kept@) =~= m.transfers.take(0).filter(p));
            assert(rest@ =~= all.skip(0));
        }
        let mut i: usize = 0;
        let n = rest.len();
        while i < n
            invariant
                i <= n,
                n == all.len(),
                m.transfers == models(all),
                rest@ == all.skip(i as int),
                p == (|t: TransferModel| pending(t)),
                models(kept@) == m.transfers.take(i as int).filter(p),
            decreases n - i,
        {
            proof {
                reveal(Seq::filter);
                assert(m.transfers.take(i + 1).drop_last() =~= m.transfers.take(i as int));
            }
            let t = rest.remove(0);
            proof {
                assert(rest@ =~= all.skip(i + 1));
                assert(t@ == m.transfers[i as int]);
            }
            if t.is_pending() {
                let ghost before = kept@;
                kept.push(t);
                proof {
                    lemma_push(before, t);
                }
            }
            i += 1;
        }
        assert(m.transfers.take(i as int) =~= m.transfers);
        self.transfers = kept;
        self.error = None;
    }
}

/// An event adds and takes away no transfer, and changes at most how far one is:
/// what it transfers stays. When the connection ends, what was not finished
/// failed, and what was finished stays as it is.
pub proof fn law_poll_keeps_transfers(m: FileManagerModel, e: EventModel, i: int)
    requires
        0 <= i < m.transfers.len(),
    ensures
        m.polled(e).transfers.len() == m.transfers.len(),
        m.polled(e).transfers[i].id == m.transfers[i].id,
        m.polled(e).transfers[i].upload == m.transfers[i].upload,
        m.polled(e).transfers[i].label == m.transfers[i].label,
        e is Closed ==> m.polled(e).transfers[i] == broken_off(m.transfers[i]) && !pending(
            m.polled(e).transfers[i],
        ),
        !(e is Closed || e is Progress || e is Finished) ==> m.polled(e).transfers[i]
            == m.transfers[i],
{
    match e {
        EventModel::Progress { id, .. } => {
            lemma_place_id(m.transfers, id);
        },
        EventModel::Finished { id, .. } => {
            lemma_place_id(m.transfers, id);
        },
        _ => {},
    }
}

proof fn lemma_place_id(s: Seq<TransferModel>, id: u64)
    ensures
        0 <= transfer_place(s, id) <= s.len(),
        transfer_place(s, id) < s.len() ==> s[transfer_place(s, id)].id == id,
    decreases s.len(),
{
    if s.len() > 0 && s[0].id != id {
        lemma_place_id(s.drop_first(), id);
    }
}

/// Every transfer of the queue has an id below the next one, and no two have the
/// same.
pub open spec fn ids_apart(m: FileManagerModel) -> bool {
    &&& forall|i: int| 0 <= i < m.transfers.len() ==> (#[trigger] m.transfers[i]).id < m.next_id
    &&& forall|i: int, j: int|
        0 <= i < j < m.transfers.len() ==> (#[trigger] m.transfers[i]).id != (
        #[trigger] m.transfers[j]).id
}

/// Transfers never share an id, whatever is started and whatever comes back.
pub proof fn law_ids_apart(
    m: FileManagerModel,
    e: EventModel,
    from: Side,
    names: Seq<Seq<char>>,
    target: Option<Seq<char>>,
)
    requires
        ids_apart(m),
        m.next_id < u64::MAX,
    ensures
        ids_apart(m.polled(e)),
        ids_apart(m.transferring(from, names, target)),
{
    let p = m.polled(e);
    assert(p.next_id == m.next_id);
    assert forall|i: int| 0 <= i < p.transfers.len() implies (#[trigger] p.transfers[i]).id
        < p.next_id by {
        law_poll_keeps_transfers(m, e, i);
    }
    assert forall|i: int, j: int| 0 <= i < j < p.transfers.len() implies (#[trigger] p.transfers[i]).id
        != (#[trigger] p.transfers[j]).id by {
        law_poll_keeps_transfers(m, e, i);
        law_poll_keeps_transfers(m, e, j);
    }
}

/// A listing of a folder that the panel has left is ignored.
pub proof fn law_stale_listing(m: FileManagerModel, path: Seq<char>, entries: Seq<EntryModel>)
    requires
        path != m.remote.path,
    ensures
        m.polled(EventModel::Listing { path, entries }) == m,
{
}

/// Without a session nothing is sent.
pub proof fn law_nothing_sent_offline(m: FileManagerModel, e: EventModel)
    requires
        !m.connected,
    ensures
        m.polled(e).outbox == m.outbox,
{
}

impl FileManagerModel {
    /// Whether a transfer waits or runs.
    pub open spec fn transferring_now(self) -> bool {
        exists|i: int| 0 <= i < self.transfers.len() && pending(#[trigger] self.transfers[i])
    }

    /// The remote folder to remember, if one is shown.
    pub open spec fn remote_folder(self) -> Option<Seq<char>> {
        if self.remote.path.len() == 0 {
            None
        } else {
            Some(self.remote.path)
        }
    }

    /// Without the session, once it is over.
    pub open spec fn hung_up(self) -> FileManagerModel {
        FileManagerModel { connected: self.connected && !(self.status is Closed), ..self }
    }

    /// After the local folder was read, or failed to be.
    pub open spec fn local_read(self, read: Result<Seq<EntryModel>, Seq<char>>) -> FileManagerModel {
        match read {
            Ok(entries) => FileManagerModel { local: self.local.showing(entries), ..self },
            Err(e) => FileManagerModel { error: Some(self.local.path + " : "@ + e), ..self },
        }
    }

    /// Back in the folder before, where the new one could not be read.
    pub open spec fn settled(self, previous: Seq<char>, is_dir: bool) -> FileManagerModel {
        if self.error is Some && !is_dir {
            FileManagerModel { local: PanelModel { path: previous, ..self.local }, ..self }
        } else {
            self
        }
    }

    /// Without the transfers that are over.
    pub open spec fn cleared(self) -> FileManagerModel {
        FileManagerModel {
            transfers: self.transfers.filter(|t: TransferModel| pending(t)),
            error: None,
            ..self
        }
    }
}

/// What was read, or why it could not be.
pub open spec fn read_result(read: Result<Vec<Entry>, String>) -> Result<Seq<EntryModel>, Seq<char>> {
    match read {
        Ok(entries) => Ok(models(entries@)),
        Err(e) => Err(e@),
    }
}

/// Whether the local folder is read again after an event.
pub open spec fn reads_local(event: EventModel) -> bool {
    event is Finished
}

} // verus!
