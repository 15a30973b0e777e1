//! The file manager of an SSH tab.

use ronnie::browse::{Keys, Outcome, PanelOut, Step, Task};
use ronnie::files::{parent_of, Dialog, FileManager, Side, Status, TransferState};
use ronnie::names::Names;
use ronnie::panel::{Panel, SortBy};
use ronnie::rows::RowItem;
use ronnie::sftp::{entry, list, local_entry, Attrs, Entry, Event, Listed, LocalFile, Request};
use ronnie::shortcut::Platform;

fn file(name: &str, size: u64) -> Entry {
    Entry { name: name.to_string(), is_dir: false, is_link: false, size, mtime: None, mode: Some(0o644), owner: None }
}

fn dir(name: &str) -> Entry {
    Entry { name: name.to_string(), is_dir: true, is_link: false, size: 0, mtime: None, mode: Some(0o755), owner: None }
}

fn names(list: &[&str]) -> Vec<String> {
    list.iter().map(|s| s.to_string()).collect()
}

fn ready() -> FileManager {
    let mut m = FileManager::new(1, "/l".to_string(), None, Platform::Other);
    m.connect(Ok(()));
    m.poll(Event::Connected { home: "/home/me".to_string() });
    m.poll(Event::Listing { path: "/home/me".to_string(), entries: vec![file("b", 2), dir("d"), file("a", 1), file(".h", 0)] });
    m.read_local(Ok(vec![file("a", 9), file("new", 3)]));
    m.outbox.clear();
    m
}

#[test]
fn connecting_lists_the_home_directory() {
    let mut m = FileManager::new(1, "/l".to_string(), None, Platform::Other);
    m.connect(Ok(()));
    m.poll(Event::Connected { home: "/home/me".to_string() });
    assert!(matches!(m.status, Status::Ready));
    assert_eq!(m.remote.path, "/home/me");
    assert!(matches!(m.outbox.as_slice(), [Request::List(p)] if p == "/home/me"));
    m.poll(Event::Listing { path: "/elsewhere".to_string(), entries: vec![dir("x")] });
    assert!(m.remote.entries.is_empty());
    let mut closed = FileManager::new(1, "/l".to_string(), Some("/r".to_string()), Platform::Other);
    closed.connect(Err("refused".to_string()));
    assert!(matches!(&closed.status, Status::Closed(e) if e == "refused"));
    closed.list_remote();
    assert!(closed.outbox.is_empty());
    assert_eq!(closed.folders(), ("/l".to_string(), Some("/r".to_string())));
}

#[test]
fn directories_come_first() {
    let mut m = ready();
    let order = |p: &Panel, hidden: bool| -> Vec<String> { p.visible(hidden).into_iter().map(|i| p.entries[i].name.clone()).collect() };
    assert_eq!(order(&m.remote, false), ["d", "a", "b"]);
    assert_eq!(order(&m.remote, true), ["d", ".h", "a", "b"]);
    m.panel(Side::Remote).sort_by(SortBy::Size);
    assert_eq!(order(&m.remote, false), ["d", "a", "b"]);
    m.panel(Side::Remote).sort_by(SortBy::Size);
    assert_eq!(order(&m.remote, false), ["d", "b", "a"]);
}

#[test]
fn names_sort_whatever_their_case() {
    let mut p = Panel::new("/".to_string());
    p.show(vec![file("b", 0), file("C", 0), file("É", 0), file("A", 0)]);
    let order: Vec<&str> = p.visible(true).into_iter().map(|i| p.entries[i].name.as_str()).collect();
    assert_eq!(order, ["A", "b", "C", "É"]);
}

#[test]
fn selecting_rows() {
    let mut p = Panel::new("/".to_string());
    p.show(vec![file("a", 0), file("b", 0), file("c", 0), file("d", 0)]);
    let rows = names(&["a", "b", "c", "d"]);
    p.click(&rows, "b", false, false, true);
    p.click(&rows, "d", true, false, true);
    assert_eq!(p.selection(), ["b", "c", "d"]);
    p.click(&rows, "c", false, true, true);
    assert_eq!(p.selection(), ["b", "d"]);
    p.click(&rows, "a", false, false, true);
    assert_eq!(p.selection(), ["a"]);
    p.select_all(true);
    assert_eq!(p.selection().len(), 4);
    p.show(vec![file("c", 0)]);
    assert_eq!(p.selection(), ["c"]);
}

#[test]
fn sets_of_names() {
    let mut n = Names::from_list(&names(&["b", "a", "b"]));
    assert!(n.contains("a") && !n.contains("c"));
    assert!(n.insert("c") && !n.insert("c"));
    assert!(n.remove("a") && !n.remove("a"));
    n.retain(&names(&["c", "x"]));
    assert!(n.contains("c") && !n.contains("b"));
}

#[test]
fn conflicts_are_asked_about() {
    let mut m = ready();
    m.transfer(Side::Local, names(&["new"]), None);
    assert!(m.dialog.is_none());
    assert!(matches!(m.outbox.as_slice(), [Request::Upload { id: 1, overwrite: false, remote_dir, .. }] if remote_dir == "/home/me"));
    assert!(matches!(m.transfers[0].state, TransferState::Queued));
    m.transfer(Side::Local, names(&["a", "new"]), None);
    assert!(matches!(&m.dialog, Some(Dialog::Conflict { existing, .. }) if existing == &["a"]));
    assert_eq!(m.outbox.len(), 1);
    m.resolve(Outcome::Cancel);
    assert_eq!(m.outbox.len(), 1);
    m.transfer(Side::Local, names(&["a", "new"]), None);
    m.resolve(Outcome::Confirm);
    assert!(matches!(&m.outbox[1], Request::Upload { id: 2, overwrite: true, .. }));
    assert_eq!(m.transfers[1].label, "a  +1");
    m.transfer(Side::Remote, names(&["a"]), None);
    m.resolve(Outcome::Skip);
    assert!(matches!(&m.outbox[2], Request::Download { overwrite: false, local_dir, .. } if local_dir == "/l"));
}

#[test]
fn transfers_go_their_way() {
    let mut m = ready();
    m.transfer(Side::Local, names(&["new"]), None);
    assert!(m.busy());
    m.poll(Event::Progress { id: 1, done: 2, total: 3, current: "new".to_string() });
    assert!(matches!(m.transfers[0].state, TransferState::Running));
    assert!(m.poll(Event::Finished { id: 1, result: Ok(3) }));
    assert!(!m.busy());
    m.transfer(Side::Local, names(&["new"]), None);
    m.poll(Event::Closed("gone".to_string()));
    assert!(matches!(&m.transfers[1].state, TransferState::Failed(_)));
    assert!(matches!(&m.transfers[0].state, TransferState::Done));
    m.clear();
    assert!(m.transfers.is_empty());
}

#[test]
fn dialogs_change_files() {
    let mut m = ready();
    m.dialog = Some(Dialog::Mkdir { side: Side::Remote, text: "  x/y ".to_string(), fresh: false });
    assert!(matches!(m.resolve(Outcome::Confirm), Task::Nothing));
    assert!(m.outbox.is_empty());
    m.dialog = Some(Dialog::Mkdir { side: Side::Remote, text: " docs ".to_string(), fresh: false });
    m.resolve(Outcome::Confirm);
    assert!(matches!(&m.outbox[0], Request::Mkdir(p) if p == "/home/me/docs"));
    m.dialog = Some(Dialog::Rename { side: Side::Local, from: "a".to_string(), text: "z".to_string(), fresh: false });
    assert!(matches!(m.resolve(Outcome::Confirm), Task::Rename(a, b) if a == "/l/a" && b == "/l/z"));
    m.dialog = Some(Dialog::Delete { side: Side::Remote, names: names(&["b", "d"]) });
    m.resolve(Outcome::Confirm);
    assert!(matches!(&m.outbox[1], Request::Remove(p) if p == &["/home/me/b", "/home/me/d"]));
    m.dialog = Some(Dialog::Chmod { names: names(&["b"]), mode: 0o600, octal: "600".to_string(), recursive: false, any_dir: false });
    m.resolve(Outcome::Confirm);
    assert!(matches!(&m.outbox[2], Request::Chmod { mode: 0o600, recursive: false, .. }));
    assert!(m.dialog.is_none());
}

#[test]
fn keys_of_the_file_manager() {
    let mut m = ready();
    m.active = Side::Local;
    let rows = names(&["a", "new"]);
    m.local.click(&rows, "a", false, false, true);
    let none = Keys { delete: false, rename: false, enter: false, all: false };
    let steps = m.keyboard(Keys { delete: true, ..none }, false);
    assert!(matches!(steps.as_slice(), [Step::Ask(Dialog::Delete { side: Side::Local, .. })]));
    assert!(m.keyboard(Keys { delete: true, ..none }, true).is_empty());
    let steps = m.keyboard(Keys { all: true, ..none }, false);
    for s in steps {
        m.step(s);
    }
    assert_eq!(m.local.selection(), ["a", "new"]);
}

#[test]
fn moving_through_folders() {
    let mut m = ready();
    assert_eq!(m.path_of(Side::Remote, "d"), "/home/me/d");
    assert_eq!(m.path_of(Side::Local, "a"), "/l/a");
    assert!(matches!(m.step(Step::Go(Side::Remote, "/home/me/d".to_string())), Task::Nothing));
    assert_eq!(m.remote.path, "/home/me/d");
    assert!(matches!(m.step(Step::Go(Side::Local, "/l/sub".to_string())), Task::Visit(p) if p == "/l"));
    m.read_local(Err("not found".to_string()));
    assert_eq!(m.error.as_deref(), Some("/l/sub : not found"));
    m.settle_local("/l".to_string(), false);
    assert_eq!(m.local.path, "/l");
    assert!(matches!(m.step(Step::Refresh(Side::Local)), Task::Read));
    let mut out = PanelOut::new();
    out.side = Some(Side::Remote);
    out.home = true;
    let steps = out.steps(Some("/home/me".to_string()));
    assert!(matches!(&steps[..], [Step::Go(Side::Remote, p)] if p == "."));
    let mut out = PanelOut::new();
    out.side = Some(Side::Local);
    out.home = true;
    let steps = out.steps(Some("/home/me".to_string()));
    assert!(matches!(&steps[..], [Step::Go(Side::Local, p)] if p == "/home/me"));
}

#[test]
fn folders_above() {
    assert_eq!(parent_of(Side::Remote, "/a/b"), "/a");
    assert_eq!(parent_of(Side::Local, "/a/b"), "/a");
    assert_eq!(parent_of(Side::Local, "/a"), "/");
    assert_eq!(parent_of(Side::Local, "/"), "/");
    assert_eq!(parent_of(Side::Local, "a"), "");
    assert_eq!(parent_of(Side::Local, ""), "");
}

#[test]
fn double_clicks_and_drops() {
    let m = ready();
    let mut out = PanelOut::new();
    m.double_click(Side::Remote, &m.remote.entries[1], &mut out);
    assert_eq!(out.go.as_deref(), Some("/home/me/d"));
    let mut out = PanelOut::new();
    m.drop_names(Side::Local, Side::Remote, names(&["a"]), Some("d".to_string()), &mut out);
    assert_eq!(out.dropped, Some((names(&["a"]), Some("/home/me/d".to_string()))));
    let mut out = PanelOut::new();
    m.drop_names(Side::Local, Side::Local, names(&["a"]), None, &mut out);
    assert!(out.dropped.is_none());
    assert!(!m.can_transfer(Side::Local));
}

#[test]
fn listings_leave_suspect_names_out() {
    let attrs = || Attrs { dir: false, link: false, size: Some(5), mtime: Some(7), permissions: Some(0o100644), user: None, uid: Some(501) };
    let item = |name: &str| Listed { name: name.to_string(), attrs: attrs(), target_dir: None };
    let got = list(&vec![item("."), item(".."), item("ok"), item("a/b")], Platform::Other);
    assert_eq!(got.len(), 1);
    let e = entry("x", &attrs());
    assert_eq!((e.size, e.mtime, e.mode, e.owner.as_deref()), (5, Some(7), Some(0o644), Some("501")));
}

#[test]
fn the_menu_of_a_row() {
    let m = ready();
    let entry = file("a", 1);
    let mut out = PanelOut::new();
    assert_eq!(m.pick(RowItem::CopyPath, Side::Remote, &entry, &mut out).as_deref(), Some("/home/me/a"));
    assert!(out.go.is_none() && out.dialog.is_none() && out.transfer.is_none());
    assert_eq!(m.pick(RowItem::Open, Side::Remote, &dir("d"), &mut out), None);
    assert_eq!(out.go.as_deref(), Some("/home/me/d"));
    m.pick(RowItem::Rename, Side::Local, &entry, &mut out);
    match out.dialog {
        Some(Dialog::Rename { side, from, text, fresh }) => assert_eq!((side, from.as_str(), text.as_str(), fresh), (Side::Local, "a", "a", true)),
        _ => panic!("no dialog"),
    }
}

#[test]
fn the_end_of_a_session() {
    let mut m = ready();
    m.after_poll();
    assert!(m.connected);
    m.poll(Event::Closed("bye".to_string()));
    m.after_poll();
    assert!(!m.connected);
    m.fail("/l/a", "denied");
    assert_eq!(m.error.as_deref(), Some("/l/a : denied"));
}

#[test]
fn lines_of_local_files() {
    let plain = local_entry(LocalFile { name: "f".to_string(), dir: false, link: false, target_dir: None, size: 5, modified: Some(7), mode: Some(0o100644) });
    assert_eq!((plain.name.as_str(), plain.is_dir, plain.is_link, plain.size), ("f", false, false, 5));
    assert_eq!((plain.mtime, plain.mode, plain.owner), (Some(7), Some(0o644), None));
    let link = local_entry(LocalFile { name: "l".to_string(), dir: false, link: true, target_dir: Some(true), size: 1, modified: None, mode: None });
    assert!(link.is_dir && link.is_link);
    let dangling = local_entry(LocalFile { name: "l".to_string(), dir: false, link: true, target_dir: None, size: 1, modified: None, mode: None });
    assert!(!dangling.is_dir && dangling.is_link);
}
