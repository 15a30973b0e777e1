//! Tabs, panes, profiles and what is saved of them.

use ronnie::app::{App, CloseRequest};
use ronnie::closing::{Closing, PaneUse, TabUse};
use ronnie::color::Color;
use ronnie::config::{
    Config, Lang, Layout, Profile, Session, SessionTab, Settings, SshHost, TabState, MAX_CLOSED,
};
use ronnie::editor::ProfileEditor;
use ronnie::keys::{
    card_accept, card_later, connecting, dir_labels, update_due, paste_question, ssh_label, update_card, window_title, CardClick, PaneKey, Todo, Update,
    UPDATE_INTERVAL,
};
use ronnie::menus::{click_group, click_item, click_tab, item_action, item_menu, name_edit, pane_menu, Clicks, ItemEntry, NameEdit, PaneEntry, TabAction};
use ronnie::pane::{neighbor, Axis, Direction, Node, PaneId, Real, Rect};
use ronnie::popups::{one_line, CommandScope};
use ronnie::shortcut::{Platform, ShortcutAction};
use ronnie::strings::Strings;

fn strings() -> Strings {
    Strings {
        unit_b: "B",
        unit_kb: "KB",
        unit_mb: "MB",
        unit_gb: "GB",
        unit_tb: "TB",
        decimal_comma: false,
        files_queued: "Queued",
        files_cancelled: "Cancelled",
        already_running: "Already running",
        config_not_loaded: "Config not loaded",
        config_save_failed: "Config not saved",
        session_not_loaded: "Session not loaded",
        session_save_failed: "Session not saved",
        name_taken: "Name taken",
        host_required: "Required",
        invalid_dash: "No dash",
        invalid_port: "Invalid port",
        key_required: "Key required",
        password_required: "Password required",
        update_available: "Version {v} is available",
        installing: "Installing {v}...",
        update_installed: "Version {v} installed",
        update_failed: "Update failed",
        keychain_failed: "Keychain",
        password_missing: "no password",
        connecting: "Connecting to {host} ({address})",
        paste_title: "Paste {n} lines?",
        commands_general: "General",
        copy_suffix: "copy",
        no_group: "No group",
        untitled: "Untitled",
        new_group_name: "New group",
        layout_panes: "panes",
        search_none: "Not found",
        shortcut_new_tab: "New tab",
        shortcut_close_pane: "Close pane",
        shortcut_split_right: "Split right",
        shortcut_split_down: "Split down",
        shortcut_find_text: "Find",
        history_search: "Search history",
        shortcut_reopen: "Reopen",
        shortcut_clear_pane: "Clear",
        shortcut_open_settings: "Settings",
        shortcut_toggle_files: "Files",
    }
}
fn settings() -> Settings {
    Settings::defaults(Lang::En, "ronnie", Platform::Other)
}

fn pane(cwd: Option<&str>, history: Option<u128>) -> Layout {
    Layout::Pane { cwd: cwd.map(|c| c.to_string()), history }
}

fn split(a: Layout, b: Layout) -> Layout {
    Layout::Split { axis: Axis::Horizontal, ratio: Real { bits: 0.3f32.to_bits() }, a: Box::new(a), b: Box::new(b) }
}

fn state(name: Option<&str>, layout: Layout, focused: usize) -> TabState {
    TabState { name: name.map(|n| n.to_string()), color: None, layout, focused }
}

fn profile(id: u128, tab: TabState) -> Profile {
    Profile { id, tab, commands: Vec::new(), extra: Vec::new() }
}

fn host(id: u128, name: &str) -> SshHost {
    let mut h = SshHost::with_id(id);
    h.name = name.to_string();
    h.host = name.to_string();
    h
}

fn app() -> App {
    let mut app = App::blank(settings());
    app.config.profiles.push(profile(1, state(Some("work"), split(pane(Some("/w"), Some(71)), pane(Some("/x"), None)), 1)));
    app.config.profiles.push(profile(2, state(Some("home"), pane(Some("/h"), None), 0)));
    app.config.ssh.push(host(11, "web"));
    app
}

fn idle(app: &App) -> Vec<TabUse> {
    app.tabs.iter().map(|t| TabUse {
        title: None,
        panes: t.running.iter().map(|id| PaneUse::new(*id, false, None, None)).collect(),
    }).collect()
}

fn nowhere(app: &App) -> Vec<Vec<(PaneId, String)>> {
    app.tabs.iter().map(|_| Vec::new()).collect()
}

#[test]
fn a_profile_is_open_once() {
    let mut app = app();
    app.open_profile(1);
    app.open_profile(2);
    app.open_profile(1);
    assert_eq!(app.tabs.len(), 2);
    assert_eq!(app.active, 0);
    app.open_profile(99);
    assert_eq!(app.tabs.len(), 2);
}

#[test]
fn a_profile_opens_as_it_was_saved() {
    let mut app = app();
    app.open_profile(1);
    let t = &mut app.tabs[0];
    assert_eq!(t.layout.leaves(), [1, 2]);
    assert_eq!(t.focused, 2);
    assert_eq!(t.pending, [1, 2]);
    assert_eq!(t.cwds.get(&1).unwrap(), "/w");
    assert_eq!(t.histories.get(&1), Some(&71));
    let saved = t.state(&Vec::new());
    assert!(saved.same(&app.config.profiles[0].tab));
    assert_eq!(app.next_pane, 3);
}

#[test]
fn closing_and_reopening_a_profile() {
    let mut app = app();
    app.open_profile(1);
    app.close_tab(0, &vec![(1, "/elsewhere".to_string())]);
    assert!(app.tabs.is_empty());
    assert_eq!(app.closed.len(), 1);
    assert_eq!(app.config.profiles[0].tab.layout.cwds()[0].as_deref(), Some("/elsewhere"));
    app.reopen_closed(0);
    assert_eq!(app.tabs.len(), 1);
    assert_eq!(app.tabs[0].profile, Some(1));
    assert_eq!(app.tabs[0].cwds.get(&3).unwrap(), "/elsewhere");
    assert!(app.closed.is_empty());
}

#[test]
fn plain_tabs_are_not_remembered() {
    let mut app = app();
    app.new_tab(5);
    app.close_tab(0, &Vec::new());
    assert!(app.closed.is_empty());
}

#[test]
fn so_many_closed_tabs_are_kept() {
    let mut app = App::blank(settings());
    for i in 0..20u128 {
        app.config.profiles.push(profile(i, state(Some("p"), pane(None, None), 0)));
        app.open_profile(i);
        app.close_tab(0, &Vec::new());
    }
    assert_eq!(app.closed.len(), MAX_CLOSED);
    assert_eq!(app.closed.last().unwrap().profile, Some(19));
    assert_eq!(app.closed[0].profile, Some(5));
}

#[test]
fn popups_follow_their_tab() {
    let t = strings();
    let mut app = app();
    for i in 0..3 {
        app.new_tab(i);
    }
    app.start_rename(2, Some("zsh"));
    app.open_search(1, 2, true, Vec::new());
    app.close_tab(0, &Vec::new());
    assert_eq!(app.rename.as_ref().unwrap().tab, 1);
    assert_eq!(app.rename.as_ref().unwrap().text, "zsh");
    assert_eq!(app.history_search.as_ref().unwrap().tab, 0);
    assert_eq!(app.active, 1);
    app.close_tab(0, &Vec::new());
    assert!(app.history_search.is_none());
    let _ = t;
}

#[test]
fn splitting_and_closing_panes() {
    let mut app = app();
    app.new_tab(1);
    app.split(0, Direction::Right, 2);
    app.split(0, Direction::Up, 3);
    assert_eq!(app.tabs[0].layout.leaves(), [1, 3, 2]);
    assert_eq!(app.tabs[0].focused, 3);
    app.close_pane(0, 3, &Vec::new());
    assert_eq!(app.tabs[0].layout.leaves(), [1, 2]);
    assert_eq!(app.tabs[0].focused, 1);
    app.close_pane(0, 1, &Vec::new());
    app.close_pane(0, 2, &Vec::new());
    assert!(app.tabs.is_empty());
}

#[test]
fn the_focus_goes_to_the_neighbour() {
    let mut app = app();
    app.new_tab(1);
    app.split(0, Direction::Right, 2);
    let r = |l, t| Rect { left: l, top: t, right: l + 1000, bottom: t + 1000 };
    app.tabs[0].rects = vec![(1, r(0, 0)), (2, r(1000, 0))];
    app.focus_neighbor(Direction::Left);
    assert_eq!(app.tabs[0].focused, 1);
    app.focus_neighbor(Direction::Up);
    assert_eq!(app.tabs[0].focused, 1);
    assert_eq!(neighbor(&app.tabs[0].rects, 1, Direction::Right), Some(2));
    assert_eq!(neighbor(&app.tabs[0].rects, 9, Direction::Right), None);
}

#[test]
fn removing_undoes_a_split() {
    let mut n = Node::Leaf(1);
    assert!(n.split(1, 2, Direction::Left));
    assert!(n.split(2, 3, Direction::Down));
    assert_eq!(n.leaves(), [2, 3, 1]);
    assert!(!n.split(9, 4, Direction::Down));
    assert!(n.remove(3));
    assert_eq!(n.leaves(), [2, 1]);
    assert!(n.remove(2));
    assert_eq!(n.leaves(), [1]);
    assert!(!n.remove(1));
    assert_eq!(n.first_leaf(), 1);
}

#[test]
fn ratios_stay_in_range() {
    for (from, to) in [(0.0f32, 0.1f32), (0.5, 0.5), (1.0, 0.9), (-3.0, 0.1), (0.1, 0.1)] {
        assert_eq!(f32::from_bits(Real { bits: from.to_bits() }.clamp().bits), to);
    }
    assert!(Real { bits: 0 }.same(Real { bits: 0x8000_0000 }));
    assert!(!Real { bits: f32::NAN.to_bits() }.same(Real { bits: f32::NAN.to_bits() }));
}

#[test]
fn hosts_open_once() {
    let mut app = app();
    app.open_ssh(11);
    app.open_item(11);
    assert_eq!(app.tabs.len(), 1);
    assert_eq!(app.tabs[0].name.as_deref(), Some("web"));
    assert_eq!(app.launch_for(0), Some(0));
    app.open_ssh(99);
    assert_eq!(app.tabs.len(), 1);
}

#[test]
fn sync_keeps_profiles_up_to_date() {
    let mut app = app();
    app.open_profile(2);
    app.open_ssh(11);
    app.config.ssh[0].name = "renamed".to_string();
    app.tabs[0].name = Some("house".to_string());
    let seen = nowhere(&app);
    let session = app.sync(&seen);
    assert_eq!(app.config.profiles[1].tab.name.as_deref(), Some("house"));
    assert_eq!(app.tabs[1].name.as_deref(), Some("renamed"));
    assert_eq!(session.tabs.len(), 2);
    assert_eq!(session.tabs[1].ssh, Some(11));
    assert!(app.session_due(&session));
    app.session_written(session, Ok(()), &strings());
    let seen = nowhere(&app);
    let again = app.sync(&seen);
    assert!(!app.session_due(&again));
    assert!(app.config_due());
    app.config_written(Ok(()), &strings());
    assert!(!app.config_due());
}

#[test]
fn errors_of_saving() {
    let t = strings();
    let mut app = app();
    app.config_written(Err("full".to_string()), &t);
    assert_eq!(app.error.as_deref(), Some("Config not saved : full"));
    assert!(!app.config_writable);
    assert!(!app.config_due());
    let seen = nowhere(&app);
    let session = app.sync(&seen);
    app.session_written(session, Err("full".to_string()), &t);
    assert_eq!(app.error.as_deref(), Some("Session not saved : full"));
}

#[test]
fn outside_edits_reach_the_tabs() {
    let t = strings();
    let mut app = app();
    app.open_profile(1);
    app.open_profile(2);
    app.close_tab(1, &Vec::new());
    let mut config = Config::new(Settings::defaults(Lang::En, "other", Platform::Other));
    config.profiles.push(profile(1, state(Some("renamed"), pane(None, None), 0)));
    assert!(app.reload_config(Ok(config), &t));
    assert_eq!(app.tabs[0].name.as_deref(), Some("renamed"));
    assert!(app.closed.is_empty());
    assert_eq!(app.config.ungrouped, [1]);
    assert!(!app.reload_config(Err("line 3".to_string()), &t));
    assert_eq!(app.error.as_deref(), Some("Config not loaded : line 3"));
    assert!(!app.config_writable);
}

#[test]
fn starting_from_the_last_session() {
    let t = strings();
    let mut config = Config::new(settings());
    config.profiles.push(profile(1, state(Some("edited"), pane(Some("/new"), None), 0)));
    config.ssh.push(host(11, "web"));
    let mut app = App::blank(settings());
    app.load(Ok(config), true, &t);
    let session = Session {
        tabs: vec![
            SessionTab { profile: Some(1), ssh: None, tab: state(Some("old"), pane(Some("/old"), None), 0) },
            SessionTab { profile: None, ssh: Some(11), tab: state(Some("web"), pane(None, None), 0) },
            SessionTab { profile: Some(9), ssh: Some(99), tab: state(None, pane(Some("/p"), None), 0) },
        ],
        active: 7,
        closed: vec![
            SessionTab { profile: Some(1), ssh: None, tab: state(None, pane(None, None), 0) },
            SessionTab { profile: Some(9), ssh: None, tab: state(None, pane(None, None), 0) },
        ],
        window: None,
    };
    app.resume(session);
    assert_eq!(app.tabs.len(), 3);
    assert_eq!(app.active, 2);
    assert_eq!(app.tabs[0].cwds.get(&1).unwrap(), "/new");
    assert_eq!(app.tabs[0].name.as_deref(), Some("edited"));
    assert_eq!(app.tabs[1].ssh, Some(11));
    assert_eq!((app.tabs[2].profile, app.tabs[2].ssh), (None, None));
    assert_eq!(app.closed.len(), 1);
}

#[test]
fn a_broken_config_is_never_overwritten() {
    let t = strings();
    let mut app = App::blank(settings());
    app.load(Err("bad".to_string()), true, &t);
    assert!(!app.config_writable && app.session_frozen);
    let seen = nowhere(&app);
    let session = app.sync(&seen);
    assert!(!app.session_due(&session) && !app.config_due());
    let mut second = App::blank(settings());
    second.locked(true, &t);
    assert!(second.read_only);
    assert_eq!(second.error.as_deref(), Some("Already running"));
}

#[test]
fn the_geometry_of_the_window() {
    let r = |v: f32| Real { bits: v.to_bits() };
    let mut app = app();
    app.track_window(Some((r(1.0), r(2.0))), Some((r(800.0), r(600.0))), false, false);
    app.track_window(Some((r(0.0), r(0.0))), Some((r(1920.0), r(1080.0))), true, false);
    let w = app.window.unwrap();
    assert_eq!((f32::from_bits(w.width.bits), w.maximized), (800.0, true));
    app.track_window(None, None, false, false);
    assert!(app.window.unwrap().maximized);
}

#[test]
fn naming_a_tab_keeps_it() {
    let t = strings();
    let mut app = app();
    app.new_tab(5);
    app.start_rename(0, Some("zsh"));
    app.rename.as_mut().unwrap().text = " work ".to_string();
    app.commit_rename_with(0, true, Some("zsh"), &Vec::new(), 100, &t);
    assert_eq!(app.rename.as_ref().unwrap().error, Some("Name taken"));
    app.commit_rename_with(0, false, Some("zsh"), &Vec::new(), 100, &t);
    assert!(app.rename.is_none());
    assert!(app.tabs[0].name.is_none());
    app.start_rename(0, Some("zsh"));
    app.rename.as_mut().unwrap().text = " mine ".to_string();
    let id = app.commit_rename(0, true, Some("zsh"), &vec![(1, "/d".to_string())], &t);
    assert_eq!(app.tabs[0].profile, Some(id));
    let p = app.config.profiles.last().unwrap();
    assert_eq!((p.id, p.tab.name.as_deref()), (id, Some("mine")));
    assert_eq!(p.tab.layout.cwds()[0].as_deref(), Some("/d"));
}

#[test]
fn naming_an_ssh_tab_names_its_host() {
    let t = strings();
    let mut app = app();
    app.open_ssh(11);
    app.start_rename(0, None);
    app.rename.as_mut().unwrap().text = "work".to_string();
    app.commit_rename(0, true, None, &Vec::new(), &t);
    assert_eq!(app.config.ssh[0].name, "work");
    assert_eq!(app.tabs[0].profile, None);
}

#[test]
fn dragging_tabs() {
    let mut app = app();
    for i in 0..3 {
        app.new_tab(i);
    }
    app.select(0);
    assert_eq!(app.plain_tabs(), [0, 1, 2]);
    let slot = |i: usize| (i, Rect { left: 0, top: i as i32 * 40_000, right: 100, bottom: i as i32 * 40_000 + 30_000 });
    let rects = vec![slot(0), slot(1), slot(2)];
    assert_eq!(app.drag_tab(0, 5_000, &rects), None);
    assert_eq!(app.drag_tab(0, 85_000, &rects), Some(2));
    assert_eq!(app.active, 2);
    let order: Vec<PaneId> = app.tabs.iter().map(|t| t.focused).collect();
    assert_eq!(order, [2, 3, 1]);
    app.move_tab(0, 2);
    assert_eq!(app.active, 1);
    app.move_tab(2, 0);
    assert_eq!(app.active, 2);
}

#[test]
fn profiles_are_renamed_colored_and_deleted() {
    let t = strings();
    let mut app = app();
    app.open_profile(1);
    assert_eq!(app.rename_profile(1, "  ", &t), Err("Required"));
    assert_eq!(app.rename_profile(1, "home", &t), Err("Name taken"));
    assert_eq!(app.rename_profile(1, " job ", &t), Ok(()));
    assert_eq!(app.tabs[0].name.as_deref(), Some("job"));
    let red = Color { r: 255, g: 0, b: 0 };
    app.color_item(1, Some(red));
    assert_eq!(app.tabs[0].color, Some(red));
    app.color_item(11, Some(red));
    assert_eq!(app.config.ssh[0].color, Some(red));
    app.start_item_rename(1, &t);
    app.rename_item(1, "home", true, &t);
    assert_eq!(app.item_rename.as_ref().unwrap().error, Some("Name taken"));
    app.rename_item(1, "home", false, &t);
    assert!(app.item_rename.is_none());
    app.delete_profile(1);
    assert_eq!(app.tabs[0].profile, None);
    assert_eq!(app.config.profiles.len(), 1);
}

#[test]
fn items_of_the_sidebar() {
    let t = strings();
    let mut app = app();
    app.open_ssh(11);
    let p = app.item(1, "", &t).unwrap();
    assert_eq!((p.name.as_str(), p.hint.as_str(), p.open, p.ssh), ("work", "2 panes", None, false));
    let h = app.item(11, "me@web:22", &t).unwrap();
    assert_eq!((h.hint.as_str(), h.open, h.ssh), ("me@web:22", Some(0), true));
    assert!(app.item(9, "", &t).is_none());
    let none = Clicks { clicked: false, double_clicked: false, middle_clicked: false };
    assert_eq!(click_item(11, &h, Clicks { clicked: true, ..none }, None), Some(TabAction::OpenItem(11)));
    assert_eq!(click_item(11, &h, Clicks { clicked: true, double_clicked: true, ..none }, None), Some(TabAction::EditHost(11)));
    assert_eq!(click_item(11, &h, Clicks { middle_clicked: true, ..none }, None), Some(TabAction::Close(0)));
    assert_eq!(click_tab(2, Clicks { clicked: true, ..none }, Some(7), None), Some(TabAction::DragOver(2, 7)));
    assert_eq!(item_menu(&h), [ItemEntry::Open, ItemEntry::Edit, ItemEntry::Files, ItemEntry::Reconnect, ItemEntry::MoveTo, ItemEntry::Colors, ItemEntry::Close, ItemEntry::Delete]);
    assert_eq!(item_action(ItemEntry::Delete, 1, &p), Some(TabAction::DeleteProfile(1)));
    assert_eq!(pane_menu(true, false)[0], (PaneEntry::Copy, false));
    assert_eq!(pane_menu(false, true)[6], (PaneEntry::Reconnect, true));
    assert_eq!(name_edit(true, true, true), NameEdit::Cancelled);
    assert_eq!(name_edit(false, false, true), NameEdit::Done(false));
}

#[test]
fn closing_asks_first() {
    let mut app = app();
    app.new_tab(1);
    app.split(0, Direction::Right, 2);
    let quiet = idle(&app);
    let busy = vec![TabUse {
        title: Some("vim".to_string()),
        panes: vec![
            PaneUse::new(2, false, Some("vim".to_string()), Some("/home/me/src")),
            PaneUse::new(1, false, Some("cargo".to_string()), None),
        ],
    }];
    assert_eq!(app.busy(0, None, &busy), ["vim  ·  cargo", "vim  ·  vim  (src)"]);
    assert_eq!(app.busy(0, Some(1), &busy), ["vim  ·  cargo"]);
    assert_eq!(app.request_close(CloseRequest::Tab(0), &busy, &Vec::new()), Closing::Nothing);
    assert_eq!(app.tabs.len(), 1);
    assert_eq!(app.confirm_close.as_ref().unwrap().busy.len(), 2);
    assert_eq!(app.answer_close(false, &Vec::new()), Closing::Nothing);
    assert!(app.confirm_close.is_none() && app.tabs.len() == 1);
    app.request_close(CloseRequest::Tab(0), &busy, &Vec::new());
    app.answer_close(true, &Vec::new());
    assert!(app.tabs.is_empty());
    app.new_tab(1);
    assert_eq!(app.request_close(CloseRequest::Window, &quiet, &Vec::new()), Closing::Window);
    assert!(app.close_confirmed);
    assert!(!app.window_close(&busy));
}

#[test]
fn an_open_connection_is_busy() {
    let mut app = app();
    app.open_ssh(11);
    app.pane_started(0, 1, Ok(()));
    let uses = idle(&app);
    assert_eq!(app.busy(0, None, &uses), ["web  ·  ssh"]);
    assert!(app.window_close(&uses));
    app.panes_exited(&vec![(1, 0)], &nowhere(&app));
    assert!(app.tabs[0].dead.contains(&1));
    assert!(app.busy(0, None, &uses).is_empty());
    assert_eq!(app.tabs[0].pane_key(false, true, false), PaneKey::Reconnect(1));
    assert_eq!(app.tabs[0].pane_key(false, false, true), PaneKey::Close(1));
    let starts = app.reconnect(0, &vec![1]);
    assert_eq!((starts[0].pane, starts[0].cwd.is_none()), (1, true));
    app.pane_restarted(0, 1, Ok(()));
    assert!(!app.tabs[0].dead.contains(&1));
    assert_eq!(app.tabs[0].pane_key(true, false, true), PaneKey::Close(1));
    app.pane_restarted(0, 1, Err("gone".to_string()));
    assert_eq!(app.error.as_deref(), Some("gone"));
}

#[test]
fn folders_of_busy_panes() {
    assert_eq!(PaneUse::new(1, false, None, Some("/home/me")).dir.as_deref(), Some("me"));
    assert_eq!(PaneUse::new(1, false, None, Some("/")).dir, None);
    assert_eq!(PaneUse::new(1, false, None, Some("")).dir, None);
    assert_eq!(PaneUse::new(1, false, None, Some("/a/..")).dir, None);
}

#[test]
fn ended_shells_close_their_pane() {
    let mut app = app();
    app.new_tab(1);
    app.split(0, Direction::Right, 2);
    app.new_tab(3);
    let seen = nowhere(&app);
    app.panes_exited(&vec![(1, 0), (2, 0), (3, 1)], &seen);
    assert!(app.tabs.is_empty());
}

#[test]
fn shells_start_when_shown() {
    let mut app = app();
    app.open_profile(1);
    let starts = app.start_pending(0);
    assert_eq!(starts.len(), 2);
    assert_eq!((starts[0].cwd.as_deref(), starts[0].history), (Some("/w"), 71));
    assert_ne!(starts[1].history, 0);
    assert!(app.tabs[0].pending.is_empty());
    assert!(app.start_pending(0).is_empty());
    assert!(app.start_pending(9).is_empty());
    let kept = app.kept_histories();
    assert!(kept.contains(&71) && kept.contains(&starts[1].history));
    assert!(!kept.contains(&123));
}

#[test]
fn files_of_an_ssh_tab() {
    let mut app = app();
    app.new_tab(1);
    app.toggle_files(0, true, "/l".to_string(), Ok(()), Platform::Other);
    assert!(!app.tabs[0].show_files);
    app.open_ssh(11);
    assert!(app.opens_files(1, true));
    app.toggle_files(1, true, "/l".to_string(), Ok(()), Platform::Other);
    assert!(app.tabs[1].show_files && !app.opens_files(1, true));
    app.remember_folders();
    assert_eq!(app.config.ssh[0].sftp_local.as_deref(), Some("/l"));
    assert_eq!(app.config.ssh[0].sftp_remote, None);
    app.toggle_files(1, false, String::new(), Ok(()), Platform::Other);
    assert!(app.tabs[1].files.is_some() && !app.tabs[1].show_files);
}

#[test]
fn what_shortcuts_lead_to() {
    let mut app = app();
    assert_eq!(app.todo(ShortcutAction::ClosePane, app.focused()), Todo::Nothing);
    assert_eq!(app.todo(ShortcutAction::ReopenTab, None), Todo::Nothing);
    app.new_tab(1);
    let f = app.focused();
    assert_eq!(app.todo(ShortcutAction::ClosePane, f), Todo::Close(CloseRequest::Pane(0, 1)));
    assert_eq!(app.todo(ShortcutAction::FindCommands, f), Todo::Search(0, 1, false));
    assert_eq!(app.todo(ShortcutAction::ClearPane, f), Todo::Clear(0, 1));
    assert_eq!(app.todo(ShortcutAction::ToggleFiles, f), Todo::Nothing);
    assert_eq!(app.todo(ShortcutAction::OpenSettings, f), Todo::Settings(true));
    app.show_settings(true);
    assert_eq!(app.todo(ShortcutAction::OpenSettings, f), Todo::Settings(false));
    app.open_ssh(11);
    assert_eq!(app.todo(ShortcutAction::ToggleFiles, f), Todo::Files(1, true));
}

#[test]
fn going_round_the_tabs() {
    let mut app = app();
    app.next_tab();
    app.previous_tab();
    for i in 0..3 {
        app.new_tab(i);
    }
    app.next_tab();
    assert_eq!(app.active, 0);
    app.previous_tab();
    assert_eq!(app.active, 2);
    app.digit(1);
    assert_eq!(app.active, 1);
    app.digit(8);
    assert_eq!(app.active, 2);
    app.digit(5);
    assert_eq!(app.active, 2);
}

#[test]
fn saved_commands() {
    let t = strings();
    let mut app = app();
    app.config.commands = vec!["ls".to_string(), "top".to_string()];
    app.config.profiles[0].commands = vec!["make".to_string(), "ls".to_string()];
    app.open_profile(1);
    assert_eq!(app.saved_commands(0, &t), ["make", "ls", "top"]);
    assert_eq!(app.saved_commands(7, &t), ["ls", "top"]);
    assert_eq!(app.tab_scope(0, &t).unwrap(), (CommandScope::Profile(1), "work".to_string()));
    app.toggle_commands(2);
    app.commands_menu.as_mut().unwrap().new_command = "  cargo test ".to_string();
    app.menu_add(&t);
    assert_eq!(app.config.profiles[0].commands.last().unwrap(), "cargo test");
    assert_eq!(app.commands_menu.as_ref().unwrap().new_command, "");
    app.menu_add(&t);
    assert_eq!(app.config.profiles[0].commands.len(), 3);
    app.config.remove_command(CommandScope::Profile(1), 0);
    app.config.remove_command(CommandScope::Profile(1), 9);
    app.config.add_command(CommandScope::General, "top".to_string());
    assert_eq!(app.config.commands_of(CommandScope::Profile(1)), ["ls", "cargo test"]);
    assert_eq!(app.config.commands.len(), 2);
    assert!(app.config.commands_of(CommandScope::Host(5)).is_empty());
    app.menu_done(false, false, true, false, true);
    assert!(app.commands_menu.is_some());
    app.menu_done(false, false, true, false, false);
    assert!(app.commands_menu.is_none());
    assert_eq!(one_line("a\nb"), "a ⏎ b");
}

#[test]
fn one_popup_at_a_time() {
    let mut app = app();
    app.new_tab(1);
    app.toggle_commands(1);
    app.open_search(0, 1, true, vec!["ls".to_string()]);
    assert!(app.commands_menu.is_none());
    app.open_search(0, 1, false, Vec::new());
    assert!(!app.history_search.as_ref().unwrap().text);
    assert_eq!(app.history_search.as_ref().unwrap().entries, ["ls"]);
    assert_eq!(app.open_search(0, 1, false, Vec::new()), Some((0, 1)));
    assert!(app.history_search.is_none());
    app.open_search(0, 1, true, Vec::new());
    assert_eq!(app.toggle_commands(1), Some((0, 1)));
    app.drop_popups();
    assert!(app.commands_menu.is_none());
}

#[test]
fn searching_commands() {
    let t = strings();
    let mut app = app();
    app.new_tab(1);
    let entries = ["git push", "Cargo test", "git commit"].map(|s| s.to_string()).to_vec();
    app.open_search(0, 1, false, entries);
    let s = app.history_search.as_mut().unwrap();
    assert_eq!(s.matches().len(), 3);
    assert_eq!(s.type_query("GIT co".to_string()), None);
    assert_eq!(s.matches(), ["git commit"]);
    s.type_query("git".to_string());
    s.arrow(false, true, 2);
    s.arrow(false, true, 2);
    assert_eq!(s.chosen(true, false), Some(("git commit".to_string(), false)));
    assert_eq!(s.switch(true), Some("git".to_string()));
    s.status = (0, 0);
    assert_eq!(s.status_text(&t), "Not found");
    s.status = (2, 5);
    assert_eq!(s.status_text(&t), "2 / 5");
    assert_eq!(s.text_step(true, false, false, false), Some(true));
    assert_eq!(s.text_step(false, false, true, false), Some(false));
}

#[test]
fn editing_a_profile() {
    let t = strings();
    let mut app = app();
    app.open_profile(1);
    let mut e = ProfileEditor::new(&app.config.profiles[0]);
    assert_eq!(e.cwds, ["/w", "/x"]);
    e.new_command = " make ".to_string();
    e.add_command();
    assert_eq!(e.commands, ["make"]);
    e.cwds[1] = "  ".to_string();
    e.name = "home".to_string();
    let dirs = e.typed_cwds();
    let refused = app.save_profile_editor(e, &dirs, &t).unwrap();
    assert_eq!(refused.error, Some("Name taken"));
    let mut e = refused;
    e.name = "job".to_string();
    assert!(app.save_profile_editor(e, &dirs, &t).is_none());
    assert_eq!(app.config.profiles[0].tab.name.as_deref(), Some("job"));
    assert_eq!(app.config.profiles[0].tab.layout.cwds(), [Some("/w".to_string()), None]);
    assert_eq!(app.config.profiles[0].commands, ["make"]);
    assert_eq!(app.tabs[0].name.as_deref(), Some("job"));
}

#[test]
fn saved_passwords_answer_prompts() {
    let t = strings();
    let mut app = app();
    app.open_ssh(11);
    assert_eq!(app.password_host(), None);
    app.config.ssh[0].password_saved = true;
    assert_eq!(app.password_host(), Some(11));
    assert_eq!(app.fill_password(Some("pw".to_string()), &t).as_deref(), Some("pw\r"));
    assert_eq!(app.fill_password(None, &t), None);
    assert_eq!(app.error.as_deref(), Some("Keychain : no password"));
    assert_eq!(app.reset(), [11]);
    assert!(app.read_only && !app.config_writable);
    assert!(!app.reset_done(Err("busy".to_string())));
    assert!(app.relaunched(Ok(()), &t) && app.close_confirmed);
    app.hand_over();
    assert!(!app.relaunched(Err("no".to_string()), &t));
    assert_eq!(app.error.as_deref(), Some("Update failed : no"));
}

#[test]
fn what_the_window_says() {
    let t = strings();
    assert_eq!(window_title(true, Some("zsh")), "zsh — Ronnie");
    assert_eq!(window_title(false, None), "Ronnie (dev)");
    let parts: Vec<String> = ["code", "ronnie", "src"].map(|s| s.to_string()).to_vec();
    assert_eq!(dir_labels(true, &parts), ["~/code/ronnie/src", "…/ronnie/src", "…/src"]);
    assert_eq!(dir_labels(false, &Vec::new()), ["/"]);
    assert_eq!(dir_labels(true, &Vec::new()), ["~"]);
    assert_eq!(connecting("web", "me@web", &t), "Connecting to web (me@web)");
    assert_eq!(ssh_label("web", "me@web"), "web  ·  me@web");
    let text: String = (0..10).map(|i| format!("l{i}\n")).collect();
    let (title, lines) = paste_question(&text, &t);
    assert_eq!(title, "Paste 10 lines?");
    assert_eq!((lines.len(), lines[8].as_str()), (9, "…  +2"));
    let available = Update::Available("2.0".to_string());
    assert_eq!(update_card(&available, false, false, &t).unwrap().title, "Version 2.0 is available");
    assert!(update_card(&available, true, false, &t).is_none());
    let failed = Update::Failed("offline".to_string());
    assert!(update_card(&failed, false, false, &t).is_none());
    assert_eq!(update_card(&failed, false, true, &t).unwrap().detail.as_deref(), Some("offline"));
}

#[test]
fn a_tab_saved_as_it_is() {
    let mut app = app();
    app.new_tab(5);
    app.color_tab(0, Some(Color { r: 1, g: 2, b: 3 }));
    app.save_as_profile_with(0, Some("zsh"), &vec![(1, "/d".to_string())], 100);
    let p = app.config.profiles.last().unwrap();
    assert_eq!((p.id, p.tab.name.as_deref()), (100, Some("zsh")));
    assert_eq!(p.tab.color, Some(Color { r: 1, g: 2, b: 3 }));
    assert_eq!(p.tab.layout.cwds()[0].as_deref(), Some("/d"));
    assert_eq!(app.tabs[0].profile, Some(100));
}

#[test]
fn giving_up_a_name() {
    let mut app = app();
    app.new_tab(5);
    app.start_rename(0, Some("zsh"));
    assert!(app.rename.is_some());
    app.cancel_rename();
    assert!(app.rename.is_none());
    assert!(app.tabs[0].name.is_none());
}

#[test]
fn a_lost_session_is_not_overwritten() {
    let t = strings();
    let mut app = app();
    app.session_lost("line 1", &t);
    assert_eq!(app.error.as_deref(), Some("Session not loaded : line 1"));
    assert!(app.session_frozen);
    app.new_tab(5);
    let seen = nowhere(&app);
    let session = app.sync(&seen);
    assert!(!app.session_due(&session));
}

#[test]
fn buttons_of_an_update() {
    let available = Update::Available("2".to_string());
    assert_eq!(card_accept(&available, false), (CardClick::Install, true));
    assert_eq!(card_accept(&Update::Installed("2".to_string()), true), (CardClick::Restart, true));
    assert_eq!(card_accept(&Update::Failed("no".to_string()), true), (CardClick::Check, true));
    assert_eq!(card_accept(&Update::Idle, false), (CardClick::Nothing, false));
    let (dismissed, attempted) = card_later(&available, false, false);
    assert!(update_card(&available, dismissed, attempted, &strings()).is_none());
}

#[test]
fn clicks_on_a_group() {
    let click = Clicks { clicked: true, double_clicked: false, middle_clicked: false };
    assert_eq!(click_group(7, click, None), Some(TabAction::ToggleGroup(7)));
    let nothing = Clicks { clicked: false, double_clicked: false, middle_clicked: false };
    assert_eq!(click_group(7, nothing, None), None);
}

#[test]
fn directories_of_a_layout() {
    let mut layout = split(pane(Some("/a"), None), split(pane(None, None), pane(Some("/c"), None)));
    layout.set_cwds(&vec![None, Some("/b".to_string())]);
    let dirs = layout.cwds();
    assert_eq!(dirs, vec![None, Some("/b".to_string()), Some("/c".to_string())]);
}

#[test]
fn when_to_look_for_a_release() {
    assert_eq!(update_due(true, true, false, None, 5), (true, Some(5)));
    assert_eq!(update_due(true, true, false, Some(5), 5 + UPDATE_INTERVAL - 1), (false, Some(5)));
    assert_eq!(update_due(true, true, false, Some(5), 21_600_005), (true, Some(21_600_005)));
    assert_eq!(update_due(true, false, false, None, 5), (false, None));
    assert_eq!(update_due(true, false, true, None, 5), (true, Some(5)));
    assert_eq!(update_due(false, true, true, None, 5), (false, None));
    assert_eq!(update_due(true, true, false, Some(9), 5), (false, Some(9)));
}

#[test]
fn fewer_directories_than_panes() {
    let mut layout = split(pane(Some("/a"), Some(1)), pane(Some("/b"), Some(2)));
    layout.set_cwds(&vec![Some("/z".to_string())]);
    assert_eq!(layout.cwds(), vec![Some("/z".to_string()), Some("/b".to_string())]);
    layout.set_cwds(&Vec::new());
    assert_eq!(layout.cwds(), vec![Some("/z".to_string()), Some("/b".to_string())]);
    let mut ids = Vec::new();
    layout.histories(&mut ids);
    assert_eq!(ids, vec![1, 2]);
}

#[test]
fn a_reload_tells_of_another_theme() {
    let t = strings();
    let mut app = app();
    let mut config = Config::new(settings());
    assert!(!app.reload_config(Ok(config), &t));
    config = Config::new(settings());
    config.settings.theme = "other".to_string();
    assert!(app.reload_config(Ok(config), &t));
    assert!(!app.reload_config(Err("line 1".to_string()), &t));
    assert_eq!(app.error.as_deref(), Some("Config not loaded : line 1"));
}

#[test]
fn a_tab_saved_under_an_id_of_its_own() {
    let mut app = app();
    app.new_tab(5);
    let id = app.save_as_profile(0, Some("zsh"), &Vec::new());
    assert_eq!(id >> 76 & 0xf, 4);
    assert_eq!(app.tabs[0].profile, Some(id));
    assert!(app.config.profiles.iter().any(|p| p.id == id && p.tab.name.as_deref() == Some("zsh")));
}
