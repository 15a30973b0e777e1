//! What the file manager is for: what is asked of one side is done there, to the files that
//! were chosen, and the other side gets them.

use crate::browse::{
    home_path, panel_steps, row_names, step_if, Keys, Outcome, PanelOut, StepModel, TaskModel,
};
use crate::files::{
    pending, transfer_label, transfer_place, DialogModel, FileManagerModel, Side, StatusModel,
    TransferModel, TransferStateModel,
};
use crate::names::{law_name_set, law_with_name, law_without_name, increasing};
use crate::panel::{first_place, names_of, shows, PanelModel};
use crate::paths::{below, has_drive, seen_from, separator};
use crate::rows::{row_items, RowItem};
use crate::sftp::{joined_path, EntryModel, EventModel, RequestModel};
use crate::shortcut::Platform;
use crate::text::{begins, ends, opt_view, trimmed, views};
use crate::transfer_laws::law_below;
use vstd::prelude::*;

verus! {

/// The two sides are each other's opposite.
pub proof fn law_sides(side: Side)
    ensures
        side.opposite() != side,
        side.opposite().opposite() == side,
{
}

/// A name without separators is found in the folder of the local panel: the path starts
/// with the folder and ends with the name.
pub proof fn law_local_name(dir: Seq<char>, name: Seq<char>, platform: Platform)
    requires
        name.len() > 0 ==> !separator(name[0], platform),
        !has_drive(name, platform),
    ensures
        begins(seen_from(dir, name, platform), dir),
        ends(seen_from(dir, name, platform), name),
        seen_from(dir, name, platform) == below(dir, name, platform),
{
    law_below(dir, name, platform);
}

/// An absolute path is the same from everywhere, but for the drive of Windows.
pub proof fn law_absolute_path(dir: Seq<char>, path: Seq<char>)
    requires
        path.len() > 0,
        path[0] == '/',
    ensures
        seen_from(dir, path, Platform::Other) == path,
        seen_from(dir, path, Platform::MacOs) == path,
{
}

/// A started transfer sends one request: the names of the side it comes from, each in the
/// folder of that side, and the target as it was given. It is queued under the id of the
/// request.
pub proof fn law_transfer_sends_the_selection(
    m: FileManagerModel,
    names: Seq<Seq<char>>,
    target: Seq<char>,
    overwrite: bool,
)
    requires
        m.connected,
        m.next_id < u64::MAX,
    ensures
        ({
            let r = m.started(Side::Local, names, target, overwrite);
            let n = m.outbox.len();
            &&& r.outbox.len() == n + 1
            &&& r.outbox.take(n as int) == m.outbox
            &&& r.outbox[n as int] matches RequestModel::Upload {
                id,
                local,
                remote_dir,
                overwrite: o,
            } && id == m.next_id && local.len() == names.len() && remote_dir == target && o
                == overwrite && forall|i: int|
                0 <= i < names.len() ==> (#[trigger] local[i]) == seen_from(
                    m.local.path,
                    names[i],
                    m.platform,
                )
        }),
        ({
            let r = m.started(Side::Remote, names, target, overwrite);
            let n = m.outbox.len();
            &&& r.outbox.len() == n + 1
            &&& r.outbox.take(n as int) == m.outbox
            &&& r.outbox[n as int] matches RequestModel::Download {
                id,
                remote,
                local_dir,
                overwrite: o,
            } && id == m.next_id && remote.len() == names.len() && local_dir == target && o
                == overwrite && forall|i: int|
                0 <= i < names.len() ==> (#[trigger] remote[i]) == joined_path(
                    m.remote.path,
                    names[i],
                )
        }),
        forall|from: Side|
            ({
                let r = #[trigger] m.started(from, names, target, overwrite);
                &&& r.transfers.len() == m.transfers.len() + 1
                &&& r.transfers.drop_last() == m.transfers
                &&& r.transfers.last().id == m.next_id
                &&& r.transfers.last().upload == (from == Side::Local)
                &&& r.transfers.last().state is Queued
                &&& r.transfers.last().done == 0
                &&& r.next_id == m.next_id + 1
                &&& r.local == m.local && r.remote == m.remote
            }),
{
    let up = m.started(Side::Local, names, target, overwrite);
    let down = m.started(Side::Remote, names, target, overwrite);
    assert(up.outbox.take(m.outbox.len() as int) =~= m.outbox);
    assert(down.outbox.take(m.outbox.len() as int) =~= m.outbox);
    assert(up.transfers.drop_last() =~= m.transfers);
    assert(down.transfers.drop_last() =~= m.transfers);
}

/// What nothing stands in the way of goes where the other panel is, or to the folder that
/// was named, without replacing anything.
pub proof fn law_transfer_goes_across(
    m: FileManagerModel,
    names: Seq<Seq<char>>,
    target: Option<Seq<char>>,
)
    requires
        m.connected,
        m.next_id < u64::MAX,
        names.len() > 0,
        target is None ==> forall|i: int|
            0 <= i < names.len() ==> !names_of(m.remote.entries).contains(#[trigger] names[i])
                && !names_of(m.local.entries).contains(names[i]),
        target matches Some(t) ==> t != m.remote.path && t != m.local.path,
    ensures
        m.transferring(Side::Local, names, target).outbox.last() matches RequestModel::Upload {
            remote_dir,
            overwrite,
            ..
        } && !overwrite && remote_dir == match target {
            Some(t) => t,
            None => m.remote.path,
        },
        m.transferring(Side::Remote, names, target).outbox.last() matches RequestModel::Download {
            local_dir,
            overwrite,
            ..
        } && !overwrite && local_dir == match target {
            Some(t) => t,
            None => m.local.path,
        },
        m.transferring(Side::Local, names, target).outbox.len() == m.outbox.len() + 1,
        m.transferring(Side::Remote, names, target).outbox.len() == m.outbox.len() + 1,
{
    broadcast use vstd::seq_lib::group_filter_ensures;

    assert forall|from: Side| target is None implies #[trigger] m.existing(
        from,
        names,
        m.panel(from.opposite()).path,
    ).len() == 0 by {
        let there = names_of(m.panel(from.opposite()).entries);
        let f = names.filter(|n: Seq<char>| there.contains(n));
        if f.len() > 0 {
            let p = |n: Seq<char>| there.contains(n);
            assert(p(f[0]));
            names.lemma_filter_contains_rev(p, f[0]);
            let i = choose|i: int| 0 <= i < names.len() && names[i] == f[0];
            assert(!there.contains(names[i]));
        }
    }
}

/// Without a session, or with nothing selected, nothing is transferred.
pub proof fn law_transfer_needs(
    m: FileManagerModel,
    from: Side,
    names: Seq<Seq<char>>,
    target: Option<Seq<char>>,
)
    ensures
        !m.connected ==> m.transferring(from, names, target) == m,
        m.transferring(from, Seq::empty(), target) == m,
{
}

/// A conflict is settled as it was answered: the same names go to the same place, and what
/// exists is replaced only where that was confirmed.
pub proof fn law_conflict_settled(
    m: FileManagerModel,
    from: Side,
    names: Seq<Seq<char>>,
    target: Seq<char>,
    existing: Seq<Seq<char>>,
)
    requires
        m.connected,
        m.next_id < u64::MAX,
        m.dialog == Some(DialogModel::Conflict { from, names, target, existing }),
    ensures
        forall|outcome: Outcome|
            !(outcome is Cancel) ==> {
                let r = #[trigger] m.resolved(outcome);
                &&& r.1 is Nothing
                &&& r.0.dialog is None
                &&& r.0.outbox.len() == m.outbox.len() + 1
                &&& match (from, r.0.outbox.last()) {
                    (Side::Local, RequestModel::Upload { local, remote_dir, overwrite, .. }) => {
                        &&& remote_dir == target
                        &&& overwrite == (outcome == Outcome::Confirm)
                        &&& local.len() == names.len()
                        &&& forall|i: int|
                            0 <= i < names.len() ==> (#[trigger] local[i]) == seen_from(
                                m.local.path,
                                names[i],
                                m.platform,
                            )
                    },
                    (Side::Remote, RequestModel::Download { remote, local_dir, overwrite, .. }) => {
                        &&& local_dir == target
                        &&& overwrite == (outcome == Outcome::Confirm)
                        &&& remote.len() == names.len()
                        &&& forall|i: int|
                            0 <= i < names.len() ==> (#[trigger] remote[i]) == joined_path(
                                m.remote.path,
                                names[i],
                            )
                    },
                    _ => false,
                }
            },
{
}

/// A new folder is made in the folder of its panel: on this computer, or by the server.
pub proof fn law_new_folder(m: FileManagerModel, name: Seq<char>)
    ensures
        m.making(Side::Local, name) == (
            m,
            TaskModel::MakeDir(seen_from(m.local.path, name, m.platform)),
        ),
        m.connected ==> {
            let r = m.making(Side::Remote, name);
            &&& r.1 is Nothing
            &&& r.0.outbox == m.outbox.push(RequestModel::Mkdir(joined_path(m.remote.path, name)))
        },
{
}

/// A file keeps its folder when it is renamed: the old name gives way to the new one.
pub proof fn law_renaming(m: FileManagerModel, from: Seq<char>, to: Seq<char>)
    ensures
        m.renaming(Side::Local, from, to) == (
            m,
            TaskModel::Rename(
                seen_from(m.local.path, from, m.platform),
                seen_from(m.local.path, to, m.platform),
            ),
        ),
        m.connected ==> {
            let r = m.renaming(Side::Remote, from, to);
            &&& r.1 is Nothing
            &&& r.0.outbox == m.outbox.push(
                RequestModel::Rename(
                    joined_path(m.remote.path, from),
                    joined_path(m.remote.path, to),
                ),
            )
        },
{
}

/// What is deleted are the names that were chosen, each in the folder of its panel, on the
/// side they were chosen on.
pub proof fn law_deleting(m: FileManagerModel, names: Seq<Seq<char>>)
    ensures
        m.removing(Side::Local, names).0 == m,
        m.removing(Side::Local, names).1 matches TaskModel::Remove(paths) && paths.len()
            == names.len() && forall|i: int|
            0 <= i < names.len() ==> (#[trigger] paths[i]) == seen_from(
                m.local.path,
                names[i],
                m.platform,
            ),
        m.connected ==> {
            let r = m.removing(Side::Remote, names);
            &&& r.1 is Nothing
            &&& r.0.outbox.len() == m.outbox.len() + 1
            &&& r.0.outbox.last() matches RequestModel::Remove(paths) && paths.len() == names.len()
                && forall|i: int|
                0 <= i < names.len() ==> (#[trigger] paths[i]) == joined_path(
                    m.remote.path,
                    names[i],
                )
        },
{
}

/// A dialog that is confirmed does what it asked about, and is closed: with the text that
/// was typed, without the spaces around it, and never with a name that is empty, unchanged
/// or holds a "/".
pub proof fn law_dialog_confirmed(
    m: FileManagerModel,
    side: Side,
    from: Seq<char>,
    text: Seq<char>,
    names: Seq<Seq<char>>,
    fresh: bool,
)
    ensures
        ({
            let asked = FileManagerModel {
                dialog: Some(DialogModel::Rename { side, from, text, fresh }),
                ..m
            };
            let closed = FileManagerModel { dialog: None, ..m };
            let to = trimmed(text);
            let r = asked.resolved(Outcome::Confirm);
            if to.len() == 0 || to == from || to.contains('/') {
                r == (closed, TaskModel::Nothing)
            } else {
                r == closed.renaming(side, from, to)
            }
        }),
        ({
            let asked = FileManagerModel {
                dialog: Some(DialogModel::Mkdir { side, text, fresh }),
                ..m
            };
            let closed = FileManagerModel { dialog: None, ..m };
            let name = trimmed(text);
            let r = asked.resolved(Outcome::Confirm);
            if name.len() == 0 || name.contains('/') {
                r == (closed, TaskModel::Nothing)
            } else {
                r == closed.making(side, name)
            }
        }),
        ({
            let asked = FileManagerModel { dialog: Some(DialogModel::Delete { side, names }), ..m };
            let closed = FileManagerModel { dialog: None, ..m };
            asked.resolved(Outcome::Confirm) == closed.removing(side, names)
        }),
{
}

/// The permissions that were set go to the names they were set for, on the server.
pub proof fn law_permissions_sent(
    m: FileManagerModel,
    names: Seq<Seq<char>>,
    mode: u32,
    octal: Seq<char>,
    recursive: bool,
    any_dir: bool,
)
    requires
        m.connected,
        m.dialog == Some(DialogModel::Chmod { names, mode, octal, recursive, any_dir }),
    ensures
        ({
            let r = m.resolved(Outcome::Confirm);
            &&& r.1 is Nothing
            &&& r.0.dialog is None
            &&& r.0.outbox.len() == m.outbox.len() + 1
            &&& r.0.outbox.last() matches RequestModel::Chmod { paths, mode: n, recursive: deep }
                && n == mode && deep == recursive && paths.len() == names.len() && forall|i: int|
                0 <= i < names.len() ==> (#[trigger] paths[i]) == joined_path(
                    m.remote.path,
                    names[i],
                )
        }),
{
}

/// Once the session is ready, the remote panel shows the home directory, or the folder it
/// was in before, and asks what is in it.
pub proof fn law_connected_lists(m: FileManagerModel, home: Seq<char>)
    requires
        m.connected,
        home.len() > 0,
    ensures
        ({
            let r = m.polled(EventModel::Connected { home });
            &&& r.status is Ready
            &&& m.remote.path.len() == 0 ==> r.remote.path == home
            &&& m.remote.path.len() > 0 ==> r.remote.path == m.remote.path
            &&& r.outbox == m.outbox.push(RequestModel::List(r.remote.path))
            &&& r.remote.loading
        }),
{
}

/// A listing of the folder that is shown is shown as it came; what was selected and is
/// still there stays selected.
pub proof fn law_listing_shown(m: FileManagerModel, entries: Seq<EntryModel>, name: Seq<char>)
    requires
        m.wf(),
    ensures
        ({
            let r = m.polled(EventModel::Listing { path: m.remote.path, entries });
            &&& r.remote.entries == entries
            &&& !r.remote.loading
            &&& r.remote.path == m.remote.path
            &&& r.remote.path_text == m.remote.path
            &&& r.remote.selected.contains(name) == (m.remote.selected.contains(name)
                && names_of(entries).contains(name))
            &&& r.local == m.local
            &&& r.outbox == m.outbox
        }),
{
    crate::names::law_common(m.remote.selected, names_of(entries));
}

/// After a change on the server the folder that is shown is listed again.
pub proof fn law_change_lists_again(m: FileManagerModel)
    requires
        m.connected,
        m.remote.path.len() > 0,
    ensures
        m.polled(EventModel::Changed).outbox == m.outbox.push(RequestModel::List(m.remote.path)),
        m.polled(EventModel::Changed).remote.path == m.remote.path,
{
}

/// A folder that could not be listed is left for the one shown before, and the error is
/// shown.
pub proof fn law_failed_listing_goes_back(
    m: FileManagerModel,
    path: Seq<char>,
    error: Seq<char>,
)
    ensures
        m.polled(EventModel::ListFailed { path, error }).error == Some(error),
        m.polled(EventModel::Error(error)).error == Some(error),
        !m.polled(EventModel::ListFailed { path, error }).remote.loading,
        m.remote.path_text.len() > 0 ==> m.polled(
            EventModel::ListFailed { path, error },
        ).remote.path == m.remote.path_text,
        m.remote.path_text.len() == 0 ==> m.polled(
            EventModel::ListFailed { path, error },
        ).remote.path == m.remote.path,
{
}

/// Going to a folder of the server and failing to list it leads back.
pub proof fn law_go_and_back(m: FileManagerModel, path: Seq<char>, error: Seq<char>)
    requires
        m.remote.path.len() > 0,
    ensures
        m.gone(Side::Remote, path).polled(
            EventModel::ListFailed { path, error },
        ).remote.path == m.remote.path,
{
}

proof fn lemma_first(s: Seq<TransferModel>, id: u64, i: int)
    requires
        0 <= i < s.len(),
        s[i].id == id,
        forall|j: int| 0 <= j < i ==> (#[trigger] s[j]).id != id,
    ensures
        transfer_place(s, id) == i,
{
    crate::files::lemma_transfer_place(s, id, i);
}

/// A report of a transfer is shown on that transfer, and on no other; its end tells whether
/// it is done or why it failed.
pub proof fn law_reports_reach_their_transfer(
    m: FileManagerModel,
    i: int,
    j: int,
    done: u64,
    total: u64,
    current: Seq<char>,
    result: Result<u64, Seq<char>>,
)
    requires
        0 <= i < m.transfers.len(),
        0 <= j < m.transfers.len(),
        i != j,
        forall|k: int| 0 <= k < i ==> (#[trigger] m.transfers[k]).id != m.transfers[i].id,
    ensures
        ({
            let id = m.transfers[i].id;
            let r = m.polled(EventModel::Progress { id, done, total, current }).transfers;
            &&& r[i].done == done && r[i].total == total && r[i].current == current
            &&& r[i].state is Running
            &&& r[j] == m.transfers[j]
        }),
        ({
            let id = m.transfers[i].id;
            let r = m.polled(EventModel::Finished { id, result }).transfers;
            &&& result is Ok ==> r[i].state is Done
            &&& result matches Err(e) ==> r[i].state == TransferStateModel::Failed(e)
            &&& !pending(r[i])
            &&& r[i].done == m.transfers[i].done && r[i].total == m.transfers[i].total
            &&& r[j] == m.transfers[j]
        }),
{
    lemma_first(m.transfers, m.transfers[i].id, i);
}

/// The end of the session is told, and breaks off what was not over; what was over stays as
/// it was.
pub proof fn law_session_over(m: FileManagerModel, reason: Seq<char>, i: int)
    requires
        0 <= i < m.transfers.len(),
    ensures
        ({
            let r = m.polled(EventModel::Closed(reason));
            &&& r.status == StatusModel::Closed(reason)
            &&& m.transfers[i].state is Queued || m.transfers[i].state is Running
                ==> r.transfers[i].state is Failed
            &&& m.transfers[i].state is Done || m.transfers[i].state is Failed ==> r.transfers[i]
                == m.transfers[i]
        }),
{
}

/// Going to a folder shows that folder with nothing selected: the server is asked what is
/// in it, a local folder is to be read, and the one before is kept to go back to.
pub proof fn law_going(m: FileManagerModel, path: Seq<char>)
    ensures
        ({
            let (r, task) = m.stepped(StepModel::Go(Side::Local, path));
            &&& r.local.path == path
            &&& r.local.selected.len() == 0
            &&& task == TaskModel::Visit(m.local.path)
            &&& r.remote == m.remote && r.outbox == m.outbox
        }),
        m.connected && path.len() > 0 ==> {
            let (r, task) = m.stepped(StepModel::Go(Side::Remote, path));
            &&& r.remote.path == path
            &&& r.remote.selected.len() == 0
            &&& task is Nothing
            &&& r.outbox == m.outbox.push(RequestModel::List(path))
            &&& r.local == m.local
        },
{
}

/// The other steps act on the side that they name, and on nothing else.
pub proof fn law_steps(m: FileManagerModel, dialog: DialogModel)
    ensures
        forall|side: Side| #[trigger]
            m.stepped(StepModel::Focus(side)).0.active == side,
        m.stepped(StepModel::Refresh(Side::Local)) == (m, TaskModel::Read),
        m.connected && m.remote.path.len() > 0 ==> m.stepped(
            StepModel::Refresh(Side::Remote),
        ).0.outbox == m.outbox.push(RequestModel::List(m.remote.path)),
        m.stepped(StepModel::Ask(dialog)).0.dialog == Some(dialog),
        m.stepped(StepModel::SelectAll(Side::Local)).0.remote == m.remote,
        m.stepped(StepModel::SelectAll(Side::Remote)).0.local == m.local,
{
}

/// Every row that is shown is selected, and nothing else.
pub proof fn law_all_selected(p: PanelModel, show_hidden: bool, name: Seq<char>)
    ensures
        p.all_selected(show_hidden).selected.contains(name) <==> exists|i: int|
            0 <= i < p.entries.len() && (#[trigger] p.entries[i]).name == name && (show_hidden
                || p.entries[i].name.len() == 0 || p.entries[i].name[0] != '.'),
        p.all_selected(show_hidden).entries == p.entries,
        p.all_selected(show_hidden).path == p.path,
{
    let f = |e: EntryModel| shows(e, show_hidden);
    let kept = p.entries.filter(f);
    let rows = row_names(p.entries, show_hidden);
    law_name_set(rows);
    broadcast use vstd::seq_lib::group_filter_ensures;

    if rows.contains(name) {
        let k = choose|k: int| 0 <= k < rows.len() && rows[k] == name;
        assert(f(kept[k]));
        p.entries.lemma_filter_contains_rev(f, kept[k]);
        let i = choose|i: int| 0 <= i < p.entries.len() && p.entries[i] == kept[k];
        assert(p.entries[i].name == name);
    }
    if exists|i: int|
        0 <= i < p.entries.len() && (#[trigger] p.entries[i]).name == name && (show_hidden
            || p.entries[i].name.len() == 0 || p.entries[i].name[0] != '.') {
        let i = choose|i: int|
            0 <= i < p.entries.len() && (#[trigger] p.entries[i]).name == name && (show_hidden
                || p.entries[i].name.len() == 0 || p.entries[i].name[0] != '.');
        assert(f(p.entries[i]));
        assert(kept.contains(p.entries[i]));
        let k = choose|k: int| 0 <= k < kept.len() && kept[k] == p.entries[i];
        assert(rows[k] == name);
    }
}

/// The keys act on the panel that has the focus, on what is selected there: Delete asks
/// about all of it, F2 about the one name, Enter opens the one folder. While a text is typed
/// or a question is open they do nothing.
pub proof fn law_keys(m: FileManagerModel, all: bool)
    ensures
        forall|keys: Keys| #[trigger] m.key_steps(keys, true).len() == 0,
        m.dialog is Some ==> forall|keys: Keys, typing: bool| #[trigger]
            m.key_steps(keys, typing).len() == 0,
        ({
            let s = m.panel(m.active).selected;
            let press = Keys { delete: true, rename: false, enter: false, all: false };
            m.dialog is None ==> m.key_steps(press, false) == if s.len() == 0 {
                Seq::empty()
            } else {
                seq![StepModel::Ask(DialogModel::Delete { side: m.active, names: s })]
            }
        }),
        ({
            let s = m.panel(m.active).selected;
            let press = Keys { delete: false, rename: true, enter: false, all: false };
            m.dialog is None ==> m.key_steps(press, false) == if s.len() == 1 {
                seq![
                    StepModel::Ask(
                        DialogModel::Rename { side: m.active, from: s[0], text: s[0], fresh: true },
                    ),
                ]
            } else {
                Seq::empty()
            }
        }),
        ({
            let s = m.panel(m.active).selected;
            let press = Keys { delete: false, rename: false, enter: true, all: false };
            m.dialog is None ==> m.key_steps(press, false) == if s.len() == 1 && m.is_folder(
                m.active,
                s[0],
            ) {
                seq![
                    StepModel::Go(
                        m.active,
                        match m.active {
                            Side::Local => seen_from(m.local.path, s[0], m.platform),
                            Side::Remote => joined_path(m.remote.path, s[0]),
                        },
                    ),
                ]
            } else {
                Seq::empty()
            }
        }),
        ({
            let press = Keys { delete: false, rename: false, enter: false, all: true };
            m.dialog is None ==> m.key_steps(press, false) == seq![StepModel::SelectAll(m.active)]
        }),
{
    let s = m.panel(m.active).selected;
    if m.dialog is None {
        assert(m.key_steps(
            Keys { delete: true, rename: false, enter: false, all: false },
            false,
        ) =~= if s.len() == 0 {
            Seq::empty()
        } else {
            seq![StepModel::Ask(DialogModel::Delete { side: m.active, names: s })]
        });
        assert(m.key_steps(Keys { delete: false, rename: true, enter: false, all: false }, false)
            =~= if s.len() == 1 {
            seq![
                StepModel::Ask(
                    DialogModel::Rename { side: m.active, from: s[0], text: s[0], fresh: true },
                ),
            ]
        } else {
            Seq::empty()
        });
        assert(m.key_steps(Keys { delete: false, rename: false, enter: true, all: false }, false)
            =~= if s.len() == 1 && m.is_folder(m.active, s[0]) {
            seq![StepModel::Go(m.active, m.path_of(m.active, s[0]))]
        } else {
            Seq::empty()
        });
        assert(m.key_steps(Keys { delete: false, rename: false, enter: false, all: true }, false)
            =~= seq![StepModel::SelectAll(m.active)]);
    }
}

/// Whether a panel asked for a step.
pub open spec fn asked(
    out: PanelOut,
    home: Option<Seq<char>>,
    side: Side,
    step: StepModel,
) -> bool {
    match step {
        StepModel::Focus(s) => s == side && out.focus,
        StepModel::Go(s, p) => {
            &&& s == side
            &&& (out.go matches Some(go) && p == go@ && p.len() > 0) || (out.home && p == home_path(
                side,
                home,
            ))
        },
        StepModel::Refresh(s) => s == side && out.refresh,
        StepModel::Transfer { from, names, target } => {
            ||| from == side && target is None && (out.transfer matches Some(t) && names == views(
                t@,
            ))
            ||| from != side && (out.dropped matches Some(d) && names == views(d.0@) && target
                == opt_view(d.1))
        },
        StepModel::Ask(d) => out.dialog matches Some(m) && d == m@,
        StepModel::SelectAll(_) => false,
    }
}

spec fn all_asked(
    out: PanelOut,
    home: Option<Seq<char>>,
    side: Side,
    steps: Seq<StepModel>,
) -> bool {
    forall|k: int| 0 <= k < steps.len() ==> asked(out, home, side, #[trigger] steps[k])
}

proof fn lemma_asked_sum(
    out: PanelOut,
    home: Option<Seq<char>>,
    side: Side,
    a: Seq<StepModel>,
    b: Seq<StepModel>,
)
    requires
        all_asked(out, home, side, a),
        all_asked(out, home, side, b),
    ensures
        all_asked(out, home, side, a + b),
{
    assert forall|k: int| 0 <= k < (a + b).len() implies asked(
        out,
        home,
        side,
        #[trigger] (a + b)[k],
    ) by {
        if k < a.len() {
            assert((a + b)[k] == a[k]);
        } else {
            assert((a + b)[k] == b[k - a.len()]);
        }
    }
}

/// What a panel reports is asked of its own side; what was dropped onto it comes from the
/// other one. Nothing else is asked.
pub proof fn law_panel_reports(out: PanelOut, home: Option<Seq<char>>, side: Side, k: int)
    requires
        out.side == Some(side),
        0 <= k < panel_steps(out, home).len(),
    ensures
        asked(out, home, side, panel_steps(out, home)[k]),
{
    let p1 = step_if(out.focus, StepModel::Focus(side));
    let p2 = match out.go {
        Some(p) => step_if(p@.len() > 0, StepModel::Go(side, p@)),
        None => Seq::empty(),
    };
    let p3 = step_if(out.home, StepModel::Go(side, home_path(side, home)));
    let p4 = step_if(out.refresh, StepModel::Refresh(side));
    let p5 = match out.transfer {
        Some(names) => seq![
            StepModel::Transfer { from: side, names: views(names@), target: None },
        ],
        None => Seq::empty(),
    };
    let p6 = match out.dropped {
        Some(d) => seq![
            StepModel::Transfer {
                from: side.opposite(),
                names: views(d.0@),
                target: opt_view(d.1),
            },
        ],
        None => Seq::empty(),
    };
    let p7 = match out.dialog {
        Some(d) => seq![StepModel::Ask(d@)],
        None => Seq::empty(),
    };
    lemma_asked_sum(out, home, side, p1, p2);
    lemma_asked_sum(out, home, side, p1 + p2, p3);
    lemma_asked_sum(out, home, side, p1 + p2 + p3, p4);
    lemma_asked_sum(out, home, side, p1 + p2 + p3 + p4, p5);
    lemma_asked_sum(out, home, side, p1 + p2 + p3 + p4 + p5, p6);
    lemma_asked_sum(out, home, side, p1 + p2 + p3 + p4 + p5 + p6, p7);
}

/// As many steps come of a report as it holds.
pub proof fn law_panel_reports_all(out: PanelOut, home: Option<Seq<char>>, side: Side)
    requires
        out.side == Some(side),
    ensures
        panel_steps(out, home).len() == (if out.focus {
            1int
        } else {
            0
        }) + (if out.go is Some && out.go->0@.len() > 0 {
            1int
        } else {
            0
        }) + (if out.home {
            1int
        } else {
            0
        }) + (if out.refresh {
            1int
        } else {
            0
        }) + (if out.transfer is Some {
            1int
        } else {
            0
        }) + (if out.dropped is Some {
            1int
        } else {
            0
        }) + (if out.dialog is Some {
            1int
        } else {
            0
        }),
{
}

/// The home directory of this computer is the one that is known; that of the server is what
/// "." stands for there.
pub proof fn law_home(home: Seq<char>)
    ensures
        home_path(Side::Local, Some(home)) == home,
        home_path(Side::Remote, Some(home)) == seq!['.'],
        home_path(Side::Local, None) == seq!['.'],
{
}

/// A plain click selects one row; with the command key a row is added to the selection or
/// taken from it; another click on a selected row leaves the selection alone.
pub proof fn law_clicks(p: PanelModel, rows: Seq<Seq<char>>, name: Seq<char>, other: Seq<char>)
    requires
        increasing(p.selected),
    ensures
        p.clicked(rows, name, false, false, true).selected == seq![name],
        p.clicked(rows, name, false, false, true).anchor == Some(name),
        p.clicked(rows, name, false, true, true).selected.contains(name)
            != p.selected.contains(name),
        other != name ==> p.clicked(rows, name, false, true, true).selected.contains(other)
            == p.selected.contains(other),
        p.selected.contains(name) ==> p.clicked(rows, name, false, false, false) == p,
        !p.selected.contains(name) ==> p.clicked(rows, name, false, false, false).selected
            == seq![name],
{
    law_with_name(p.selected, name);
    law_without_name(p.selected, name);
}

/// A click with Shift selects the rows from the last one clicked to this one, both
/// included, whichever comes first.
pub proof fn law_shift_click(p: PanelModel, rows: Seq<Seq<char>>, a: int, h: int, command: bool, primary: bool, other: Seq<char>)
    requires
        rows.no_duplicates(),
        0 <= a < rows.len(),
        0 <= h < rows.len(),
        p.anchor == Some(rows[a]),
    ensures
        p.clicked(rows, rows[h], true, command, primary).selected.contains(other) <==> exists|i: int|
            (a <= i <= h || h <= i <= a) && #[trigger] rows[i] == other,
        p.clicked(rows, rows[h], true, command, primary).anchor == p.anchor,
{
    rows.index_of_first_ensures(rows[a]);
    rows.index_of_first_ensures(rows[h]);
    assert(rows.contains(rows[a]) && rows.contains(rows[h]));
    assert(first_place(rows, rows[a]) == a);
    assert(first_place(rows, rows[h]) == h);
    let (low, high) = if a <= h {
        (a, h)
    } else {
        (h, a)
    };
    let part = rows.subrange(low, high + 1);
    law_name_set(part);
    if part.contains(other) {
        let k = choose|k: int| 0 <= k < part.len() && part[k] == other;
        assert(rows[low + k] == other);
    }
    if exists|i: int| (a <= i <= h || h <= i <= a) && #[trigger] rows[i] == other {
        let i = choose|i: int| (a <= i <= h || h <= i <= a) && #[trigger] rows[i] == other;
        assert(part[i - low] == other);
    }
}

/// The queue names a transfer by its first name.
pub proof fn law_transfer_label(names: Seq<Seq<char>>)
    requires
        names.len() > 0,
    ensures
        begins(transfer_label(names), names[0]),
        names.len() == 1 ==> transfer_label(names) == names[0],
        names.len() > 1 ==> ends(
            transfer_label(names),
            crate::text::decimal((names.len() - 1) as nat),
        ) && transfer_label(names).len() > names[0].len(),
{
    let t = transfer_label(names);
    crate::text::law_decimal_read_back((names.len() - 1) as nat);
    if names.len() > 1 {
        let d = crate::text::decimal((names.len() - 1) as nat);
        assert(t.take(names[0].len() as int) =~= names[0]);
        assert(t.skip(t.len() - d.len()) =~= d);
    } else {
        assert(t.take(t.len() as int) =~= t);
    }
}

/// The menu of a row offers to open folders only, to rename one name only, permissions on
/// the server only and a place to show on this computer only; the rest always.
pub proof fn law_row_menu(side: Side, is_dir: bool, selected: nat)
    ensures
        row_items(side, is_dir, selected).contains(RowItem::Open) == is_dir,
        row_items(side, is_dir, selected).contains(RowItem::Rename) == (selected == 1),
        row_items(side, is_dir, selected).contains(RowItem::Permissions) == (side == Side::Remote),
        row_items(side, is_dir, selected).contains(RowItem::OpenLocation) == (side == Side::Local),
        row_items(side, is_dir, selected).contains(RowItem::Transfer),
        row_items(side, is_dir, selected).contains(RowItem::NewFolder),
        row_items(side, is_dir, selected).contains(RowItem::CopyPath),
        row_items(side, is_dir, selected).contains(RowItem::Delete),
        row_items(side, is_dir, selected).no_duplicates(),
{
    let r = row_items(side, is_dir, selected);
    let a: int = if is_dir {
        1
    } else {
        0
    };
    let b: int = if selected == 1 {
        1
    } else {
        0
    };
    let c: int = if side == Side::Remote {
        1
    } else {
        0
    };
    assert(r[0] == RowItem::Transfer);
    if is_dir {
        assert(r[1] == RowItem::Open);
    }
    if selected == 1 {
        assert(r[1 + a] == RowItem::Rename);
    }
    if side == Side::Remote {
        assert(r[1 + a + b] == RowItem::Permissions);
    }
    assert(r[1 + a + b + c] == RowItem::NewFolder);
    assert(r[2 + a + b + c] == RowItem::CopyPath);
    if side == Side::Local {
        assert(r[3 + a + b + c] == RowItem::OpenLocation);
    }
    assert(r.last() == RowItem::Delete);
}

/// The dialogs of the menu are about the row, or about the whole selection of its side.
pub proof fn law_row_dialogs(m: FileManagerModel, side: Side, entry: EntryModel)
    ensures
        m.row_dialog(RowItem::Rename, side, entry) == Some(
            DialogModel::Rename { side, from: entry.name, text: entry.name, fresh: true },
        ),
        m.row_dialog(RowItem::Delete, side, entry) == Some(
            DialogModel::Delete { side, names: m.panel(side).selected },
        ),
        m.row_dialog(RowItem::NewFolder, side, entry) matches Some(
            DialogModel::Mkdir { side: s, text, .. },
        ) && s == side && text.len() == 0,
        m.row_dialog(RowItem::Permissions, side, entry) matches Some(
            DialogModel::Chmod { names, mode, recursive, .. },
        ) && names == m.panel(side).selected && !recursive && (entry.mode is Some ==> mode
            == entry.mode->0),
        m.panel(Side::Local) == m.local,
        m.panel(Side::Remote) == m.remote,
{
}

/// A file manager starts in the folders that it is given, with nothing to send; a session
/// that opens makes it able to send, one that does not is told.
pub proof fn law_file_manager_starts(
    host: u128,
    local: Seq<char>,
    remote: Seq<char>,
    platform: Platform,
    error: Seq<char>,
)
    ensures
        ({
            let m = FileManagerModel::fresh(host, local, Some(remote), platform);
            &&& m.host == host
            &&& m.local.path == local && m.remote.path == remote
            &&& !m.connected && m.outbox.len() == 0 && m.transfers.len() == 0
            &&& FileManagerModel::fresh(host, local, None, platform).remote.path.len() == 0
            &&& m.opened(None).connected
            &&& !m.opened(Some(error)).connected
            &&& m.opened(Some(error)).status == StatusModel::Closed(error)
        }),
{
}

/// A question about a conflict is about the transfer that was asked for: the names, the side
/// they come from and the folder they go to.
pub proof fn law_conflict_as_asked(
    m: FileManagerModel,
    from: Side,
    names: Seq<Seq<char>>,
    target: Option<Seq<char>>,
)
    requires
        m.connected,
        m.transferring(from, names, target).dialog != m.dialog,
    ensures
        m.transferring(from, names, target).dialog matches Some(
            DialogModel::Conflict { from: f, names: n, target: to, existing },
        ) && f == from && n == names && to == (match target {
            Some(t) => t,
            None => match from {
                Side::Local => m.remote.path,
                Side::Remote => m.local.path,
            },
        }) && forall|i: int| 0 <= i < existing.len() ==> names.contains(#[trigger] existing[i]),
{
    let into = match target {
        Some(t) => t,
        None => m.panel(from.opposite()).path,
    };
    let there = names_of(m.panel(from.opposite()).entries);
    let f = |n: Seq<char>| there.contains(n);
    let e = m.existing(from, names, into);
    if into == m.panel(from.opposite()).path {
        assert(e == names.filter(f));
        assert forall|i: int| 0 <= i < e.len() implies names.contains(#[trigger] e[i]) by {
            assert(names.filter(f).contains(e[i]));
            names.lemma_filter_contains_rev(f, e[i]);
        }
    }
}

} // verus!
