//! Walking folders and copying files over a session.

use ronnie::sftp::{Attrs, Entry, Event, Request};
use ronnie::shortcut::Platform;
use ronnie::transfer::{
    closed, copied_mode, download, end, follows_local, heard, only_down, part_name, plan_download, plan_upload, receive,
    relative, reply, total_sent, total_size, upload, Begin, Download, Ending, Existing, Local, Outcome, Progress, Transfers,
    Upload, UploadWalk, SLACK,
};
use ronnie::walk::{chmod, remove, Found, Step, Walk, WalkError};

fn attrs(dir: bool, link: bool, size: u64) -> Attrs {
    Attrs { dir, link, size: Some(size), mtime: None, permissions: None, user: None, uid: None }
}

fn found(path: &str, dir: bool, size: u64) -> Found {
    Found { path: path.to_string(), attrs: attrs(dir, false, size) }
}

#[test]
fn cancels_a_queued_transfer() {
    let mut t = Transfers::new();
    t.send(&Request::Upload { id: 1, local: vec!["f.bin".into()], remote_dir: "/r".into(), overwrite: true });
    t.send(&Request::Upload { id: 2, local: vec!["f.bin".into()], remote_dir: "/r/nope".into(), overwrite: true });
    t.cancel(2);
    assert!(t.cancelled(2) && !t.cancelled(1));
    match t.begin(Request::Upload { id: 2, local: vec!["f.bin".into()], remote_dir: "/r/nope".into(), overwrite: true }, false) {
        Begin::Over(events) => assert!(matches!(events.as_slice(), [Event::Finished { id: 2, result: Err(e) }] if e == "cancelled")),
        _ => panic!("the cancelled transfer was begun"),
    }
    let events = t.finish(1, Ok(4_000_000), true);
    assert!(matches!(events.as_slice(), [Event::Finished { id: 1, result: Ok(4_000_000) }, Event::Changed]));
}

#[test]
fn a_walk_stays_below_its_root() {
    let mut w = Walk::new("/r/d", attrs(true, false, 0));
    assert!(w.next());
    assert!(matches!(w.meet(".", attrs(true, false, 0), Platform::Other), Step::Skip));
    assert!(matches!(w.meet("f", attrs(false, false, 3), Platform::Other), Step::Taken));
    assert!(matches!(w.meet("s", attrs(true, false, 0), Platform::Other), Step::Ask(p) if p == "/r/d/s"));
    assert!(matches!(w.take("/r/d/s", attrs(true, false, 0)), Step::Taken));
    assert!(matches!(w.meet("../x", attrs(false, false, 0), Platform::Other), Step::Stop(WalkError::SuspectName)));
    assert!(w.next());
    assert_eq!(w.current.path, "/r/d/s");
    assert!(!w.next());
    let paths: Vec<&str> = w.out.iter().map(|f| f.path.as_str()).collect();
    assert_eq!(paths, ["/r/d", "/r/d/f", "/r/d/s"]);
}

#[test]
fn contents_go_before_their_folder() {
    let out = vec![found("/d", true, 0), found("/d/a", false, 1), found("/d/s", true, 0), found("/d/s/b", false, 1)];
    let order: Vec<String> = remove(&out).into_iter().map(|r| r.path).collect();
    assert_eq!(order, ["/d/s/b", "/d/s", "/d/a", "/d"]);
    assert_eq!(chmod(&out).len(), 4);
}

#[test]
fn downloads_stay_in_their_folder() {
    let plan = plan_download(&vec![found("/r/d", true, 0), found("/r/d/f", false, 3)], "/r/d", "/l", Platform::Other).unwrap();
    assert_eq!(plan[0].local, "/l/d");
    assert_eq!(plan[1].local, "/l/d/f");
    assert_eq!(total_size(&plan), Some(3));
    assert!(plan_download(&vec![found("/r/d/../../x", false, 0)], "/r/d", "/l", Platform::Other).is_err());
    assert_eq!(relative("/r/d/f", "/r/d"), "d/f");
    assert!(only_down("a/b", Platform::Other));
    assert!(!only_down("../a", Platform::Other));
    assert!(!only_down("/a", Platform::Other));
    assert!(!only_down("C:\\a", Platform::Windows));
}

#[test]
fn nothing_is_overwritten_unasked() {
    assert_eq!(download(&attrs(false, false, 1), Existing::Nothing, false), Download::Copy);
    assert_eq!(download(&attrs(false, false, 1), Existing::Other, false), Download::Skip);
    assert_eq!(download(&attrs(false, false, 1), Existing::Other, true), Download::Copy);
    assert_eq!(download(&attrs(false, false, 1), Existing::Link, true), Download::RefuseLink);
    assert_eq!(download(&attrs(false, true, 1), Existing::Nothing, true), Download::LeaveLink);
    assert_eq!(download(&attrs(true, false, 1), Existing::Other, false), Download::MakeFolder);
    assert_eq!(upload(false, true, false), Upload::Skip);
    assert_eq!(upload(false, true, true), Upload::Copy);
    assert_eq!(upload(true, true, false), Upload::FolderExists);
    assert_eq!(upload(true, false, false), Upload::MakeFolder);
}

#[test]
fn a_server_may_not_send_without_end() {
    assert_eq!(receive(10, 5, Some(10)), Some(15));
    assert_eq!(receive(SLACK, 11, Some(10)), None);
    assert_eq!(receive(SLACK, 11, None), Some(SLACK + 11));
    assert_eq!(part_name("a.txt"), ".a.txt.ronnie-part");
    assert_eq!(copied_mode(0o104755), 0o755);
}

#[test]
fn progress_is_not_reported_too_often() {
    let mut p = Progress { id: 4, total: 100, done: 0 };
    assert!(p.add(10, "f", 10).is_none());
    assert!(matches!(p.add(20, "f", 200), Some(Event::Progress { id: 4, done: 30, total: 100, .. })));
    assert!(matches!(p.finish(), Event::Progress { done: 100, .. }));
}

#[test]
fn uploads_mirror_their_folder() {
    let parts = vec!["d".to_string(), "f".to_string()];
    let s = plan_upload("/l/d/f", Local::File { size: 3 }, "/r", &parts).unwrap();
    assert_eq!((s.remote.as_str(), s.size, s.dir), ("/r/d/f", 3, false));
    assert!(plan_upload("/l/x", Local::Other, "/r", &parts).is_none());
    assert_eq!(total_sent(&vec![s]), Some(3));
}

#[test]
fn answers_to_requests() {
    let listed = reply(&Request::List("/r".into()), Outcome::Entries(Vec::<Entry>::new()));
    assert!(matches!(listed, Some(Event::Listing { path, .. }) if path == "/r"));
    let failed = reply(&Request::List("/r".into()), Outcome::Failed("denied".into()));
    assert!(matches!(failed, Some(Event::ListFailed { error, .. }) if error == "denied"));
    assert!(matches!(reply(&Request::Mkdir("/x".into()), Outcome::Done), Some(Event::Changed)));
}

#[test]
fn the_last_words_of_a_session() {
    assert!(matches!(closed("  \n"), Event::Closed(e) if e == "ssh ended"));
    assert!(matches!(closed(" refused \n"), Event::Closed(e) if e == "refused"));
    assert_eq!(heard("ab", "cd"), "abcd");
    assert_eq!(heard(&"x".repeat(4096), "end").len(), 4096);
    assert!(heard(&"é".repeat(3000), "end").ends_with("éend"));
}

#[test]
fn links_chosen_by_the_user_are_followed() {
    let link = attrs(false, true, 0);
    assert!(ronnie::walk::follows(&link, true));
    assert!(!ronnie::walk::follows(&link, false));
    assert!(!ronnie::walk::follows(&attrs(true, false, 0), true));
}

#[test]
fn bits_of_a_mode() {
    assert_eq!(ronnie::transfer::asked_mode(0o100644), 0o644);
    assert_eq!(ronnie::transfer::asked_mode(0o106755), 0o6755);
    assert_eq!(ronnie::transfer::copied_mode(0o106755), 0o755);
}

#[test]
fn a_cancelled_transfer_is_never_begun() {
    let upload = |id| Request::Upload { id, local: vec!["f.bin".into()], remote_dir: "/r".into(), overwrite: true };
    let mut t = Transfers::new();
    t.send(&upload(1));
    t.send(&upload(2));
    t.cancel(2);
    t.cancel(9);
    assert_eq!(t.start(1), Ok(()));
    assert_eq!(t.start(2), Err("cancelled".to_string()));
    assert!(matches!(t.begin(upload(1), false), Begin::Run(Request::Upload { id: 1, .. })));
    assert_eq!(t.finish(1, Ok(0), false).len(), 1);
    match t.begin(upload(2), true) {
        Begin::Over(events) => {
            assert!(matches!(events.as_slice(), [Event::Finished { id: 2, result: Err(e) }, Event::Changed] if e == "cancelled"));
        }
        _ => panic!("begun"),
    }
    t.cancel(2);
    assert_eq!(t.start(2), Ok(()));
    assert!(matches!(t.begin(Request::List("/r".into()), true), Begin::Nothing));
}

#[test]
fn how_a_session_ends() {
    assert!(matches!(end(Ending::Ended, "refused\n"), (Some(Event::Closed(e)), false) if e == "refused"));
    assert!(matches!(end(Ending::Ended, ""), (Some(Event::Closed(e)), false) if e == "ssh ended"));
    assert!(matches!(end(Ending::Dropped, "refused"), (None, true)));
    assert!(matches!(end(Ending::Refused("timeout".into()), " \n"), (Some(Event::Closed(e)), true) if e == "timeout"));
    assert!(matches!(end(Ending::Refused("timeout".into()), "denied"), (None, true)));
}

#[test]
fn planning_an_upload() {
    let parts = |list: &[&str]| list.iter().map(|p| p.to_string()).collect::<Vec<String>>();
    let mut w = UploadWalk::new("/r");
    w.enter("/l/d");
    let top = w.next().unwrap();
    assert!(follows_local(&top, "/l/d"));
    w.met(&top, Local::Folder, &parts(&["d"]), vec!["/l/d/a".into(), "/l/d/link".into(), "/l/d/s".into()]);
    let path = w.next().unwrap();
    assert_eq!(path, "/l/d/s");
    assert!(!follows_local(&path, "/l/d"));
    w.met(&path, Local::Folder, &parts(&["d", "s"]), Vec::new());
    let path = w.next().unwrap();
    w.met(&path, Local::Other, &parts(&["d", "link"]), vec!["/elsewhere".into()]);
    let path = w.next().unwrap();
    w.met(&path, Local::File { size: 7 }, &parts(&["d", "a"]), Vec::new());
    assert!(w.next().is_none());
    let plan: Vec<(&str, bool, u64)> = w.plan.iter().map(|s| (s.remote.as_str(), s.dir, s.size)).collect();
    assert_eq!(plan, [("/r/d", true, 0), ("/r/d/s", true, 0), ("/r/d/a", false, 7)]);
}

#[test]
fn a_walk_reads_every_folder_once() {
    let folder = || attrs(true, false, 0);
    let mut w = Walk::new("/r", folder());
    let mut read = Vec::new();
    while w.next() {
        let dir = w.current.path.clone();
        let names: &[&str] = match dir.as_str() {
            "/r" => &["a", "b", "a"],
            "/r/a" => &["c"],
            _ => &[],
        };
        read.push(dir);
        for name in names {
            if let Step::Ask(path) = w.meet(name, folder(), Platform::Other) {
                w.take(&path, folder());
            }
        }
    }
    read.sort();
    assert_eq!(read, ["/r", "/r/a", "/r/a/c", "/r/b"]);
}
