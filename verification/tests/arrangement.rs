//! The sidebar: groups, profiles and hosts in their places.

use ronnie::app::App;
use ronnie::color::{deserialize, from_hex, serialize, to_hex, Color, ColorError};
use ronnie::config::{Config, Group, Lang, Layout, Profile, Settings, SshHost, TabState};
use ronnie::pane::Rect;
use ronnie::shortcut::Platform;
use ronnie::sidebar::{Dragged, Drop, Mark, Point, Row};
use ronnie::strings::Strings;

fn strings() -> Strings {
    Strings {
        unit_b: "B",
        unit_kb: "KB",
        unit_mb: "MB",
        unit_gb: "GB",
        unit_tb: "TB",
        decimal_comma: false,
        files_queued: "Queued",
        files_cancelled: "Cancelled",
        already_running: "Already running",
        config_not_loaded: "Config not loaded",
        config_save_failed: "Config not saved",
        session_not_loaded: "Session not loaded",
        session_save_failed: "Session not saved",
        name_taken: "Name taken",
        host_required: "Required",
        invalid_dash: "No dash",
        invalid_port: "Invalid port",
        key_required: "Key required",
        password_required: "Password required",
        update_available: "Version {v} is available",
        installing: "Installing {v}...",
        update_installed: "Version {v} installed",
        update_failed: "Update failed",
        keychain_failed: "Keychain",
        password_missing: "no password",
        connecting: "Connecting to {host} ({address})",
        paste_title: "Paste {n} lines?",
        commands_general: "General",
        copy_suffix: "copy",
        no_group: "No group",
        untitled: "Untitled",
        new_group_name: "New group",
        layout_panes: "panes",
        search_none: "Not found",
        shortcut_new_tab: "New tab",
        shortcut_close_pane: "Close pane",
        shortcut_split_right: "Split right",
        shortcut_split_down: "Split down",
        shortcut_find_text: "Find",
        history_search: "Search history",
        shortcut_reopen: "Reopen",
        shortcut_clear_pane: "Clear",
        shortcut_open_settings: "Settings",
        shortcut_toggle_files: "Files",
    }
}
fn config() -> Config {
    Config::new(Settings::defaults(Lang::En, "ronnie", Platform::Other))
}

fn profile(id: u128, name: &str) -> Profile {
    Profile {
        id,
        tab: TabState {
            name: Some(name.to_string()),
            color: None,
            layout: Layout::Pane { cwd: None, history: None },
            focused: 0,
        },
        commands: Vec::new(),
        extra: Vec::new(),
    }
}

fn host(id: u128, name: &str) -> SshHost {
    let mut h = SshHost::with_id(id);
    h.name = name.to_string();
    h.host = name.to_string();
    h
}

fn group(id: u128, name: &str, local: bool, items: &[u128]) -> Group {
    let mut g = Group::with_id(id, name, local);
    g.items = items.to_vec();
    g
}

#[test]
fn sorts_profiles_into_local_groups() {
    let (p, h) = (uuid::Uuid::new_v4().as_u128(), uuid::Uuid::new_v4().as_u128());
    let mut config = config();
    config.profiles.push(Profile {
        id: p,
        tab: TabState { name: None, color: None, layout: Layout::Pane { cwd: None, history: None }, focused: 0 },
        commands: Vec::new(),
        extra: Vec::new(),
    });
    let mut host = SshHost::new();
    host.id = h;
    config.ssh.push(host);
    let mut only_profiles = Group::new("Caplaser", false);
    only_profiles.items.push(p);
    let mut ssh_group = Group::new("Serveurs", false);
    ssh_group.items.push(h);
    config.groups = vec![only_profiles, ssh_group];
    config.normalize();
    assert!(config.groups[0].local && config.groups[0].items == [p]);
    assert!(!config.groups[1].local && config.groups[1].items == [h]);
}

#[test]
fn every_item_stands_once() {
    let mut c = config();
    c.profiles = vec![profile(1, "a"), profile(2, "b")];
    c.ssh = vec![host(11, "x"), host(12, "y")];
    c.ungrouped = vec![1, 1, 99, 11];
    c.groups = vec![group(50, "g", false, &[11, 12, 12])];
    c.normalize();
    let mut all = c.ungrouped.clone();
    for g in &c.groups {
        all.extend(g.items.clone());
    }
    all.sort();
    assert_eq!(all, [1, 2, 11, 12]);
    let (ungrouped, items) = (c.ungrouped.clone(), c.groups[0].items.clone());
    c.normalize();
    assert_eq!((c.ungrouped, c.groups[0].items.clone()), (ungrouped, items));
}

#[test]
fn hosts_join_the_group_they_name() {
    let mut c = config();
    let mut h = host(11, "x");
    h.group = Some("Prod".to_string());
    c.ssh = vec![h];
    c.normalize_with(&vec![77]);
    assert_eq!(c.groups.len(), 1);
    assert_eq!((c.groups[0].id, c.groups[0].name.as_str(), c.groups[0].local), (77, "Prod", false));
    assert_eq!(c.groups[0].items, [11]);
    assert!(c.ungrouped.is_empty());
}

#[test]
fn new_ids_are_random() {
    let (a, b) = (Group::new("a", true), Group::new("b", true));
    assert_ne!(a.id, b.id);
    assert_eq!(uuid::Uuid::from_u128(a.id).get_version_num(), 4);
    assert_ne!(SshHost::new().id, SshHost::new().id);
}

fn sample() -> Config {
    let mut c = config();
    c.profiles = vec![profile(1, "a"), profile(2, "b"), profile(3, "c")];
    c.ssh = vec![host(11, "x")];
    c.ungrouped = vec![1, 11];
    c.groups = vec![group(50, "g", true, &[2, 3]), group(60, "h", false, &[])];
    c
}

fn rects(c: &Config) -> Vec<(Row, Rect)> {
    c.rows(true).into_iter().enumerate().map(|(i, r)| {
        let top = i as i32 * 1000;
        (r, Rect { left: 0, top, right: 1000, bottom: top + 900 })
    }).collect()
}

#[test]
fn rows_of_a_section() {
    let mut c = sample();
    assert_eq!(c.rows(true), [Row::Item(None, 1), Row::Group(0), Row::Item(Some(0), 2), Row::Item(Some(0), 3)]);
    assert_eq!(c.rows(false), [Row::Item(None, 11), Row::Group(1)]);
    assert_eq!(c.count(0), 2);
    c.toggle_group(50);
    assert_eq!(c.rows(true), [Row::Item(None, 1), Row::Group(0)]);
    assert!(c.is_dragged(Dragged::Group(50), Row::Group(0)));
    assert!(!c.is_dragged(Dragged::Item(1), Row::Group(0)));
}

#[test]
fn where_a_drop_lands() {
    let c = sample();
    let r = rects(&c);
    let at = |what, y| c.drop_target(what, Point { x: 10, y }, &r);
    assert_eq!(at(Dragged::Item(3), 100), (Drop::Item { id: 3, group: None, before: Some(1) }, Mark::Above(0)));
    assert_eq!(at(Dragged::Item(1), 1500), (Drop::Item { id: 1, group: Some(50), before: None }, Mark::Into(1)));
    assert_eq!(at(Dragged::Item(1), 950), (Drop::Item { id: 1, group: None, before: None }, Mark::Above(1)));
    assert_eq!(at(Dragged::Item(1), 2100), (Drop::Item { id: 1, group: Some(50), before: Some(2) }, Mark::Above(2)));
    assert_eq!(at(Dragged::Item(1), 9000), (Drop::Item { id: 1, group: Some(50), before: None }, Mark::Below));
    assert_eq!(at(Dragged::Group(50), 0), (Drop::Group { id: 50, before: None }, Mark::Below));
}

#[test]
fn drops_move_items() {
    let mut c = sample();
    c.drop_item(1, Some(50), Some(3));
    assert_eq!(c.groups[0].items, [2, 1, 3]);
    assert_eq!(c.ungrouped, [11]);
    c.drop_item(2, None, None);
    assert_eq!(c.ungrouped, [11, 2]);
    c.drop_group(60, Some(50));
    assert_eq!(c.groups[0].id, 60);
    assert_eq!(c.group_of(3), Some(50));
    assert_eq!(c.group_of(2), None);
    assert_eq!(c.move_targets(3, false), [(50, false)]);
    c.delete_group(50);
    assert_eq!(c.ungrouped, [11, 2, 1, 3]);
    assert_eq!(c.groups.len(), 1);
}

#[test]
fn groups_are_made_and_named() {
    let t = strings();
    let mut app = App::blank(Settings::defaults(Lang::En, "ronnie", Platform::Other));
    app.config = sample();
    let id = app.new_group_with(2, &t);
    assert_eq!(app.config.group_of(2), Some(id));
    assert!(app.config.groups.last().unwrap().local);
    assert!(matches!(&app.group_rename, Some((g, n, true)) if *g == id && n == "New group"));
    app.rename_group(id, "  Work ");
    assert_eq!(app.config.groups.last().unwrap().name, "Work");
    assert!(app.group_rename.is_none());
    app.start_group_rename(id);
    app.rename_group(id, "   ");
    assert_eq!(app.config.groups.last().unwrap().name, "Work");
    let other = app.new_group(false, &t);
    assert!(!app.config.groups.iter().find(|g| g.id == other).unwrap().local);
}

#[test]
fn colors_as_text() {
    let c = Color { r: 0xf7, g: 0x76, b: 0x8e };
    assert_eq!(serialize(Some(c)).as_deref(), Some("#f7768e"));
    assert_eq!(deserialize(Some("#f7768e")), Ok(Some(c)));
    assert_eq!(deserialize(Some("F7768E")), Ok(Some(c)));
    assert_eq!(deserialize(Some("#12")), Err(ColorError::Length));
    assert_eq!(deserialize(Some("#zzzzzz")), Err(ColorError::Number));
    assert_eq!(serialize(None), None);
    assert_eq!(deserialize(None), Ok(None));
    assert_eq!((to_hex(c).as_str(), from_hex("#f7768e")), ("#f7768e", Ok(c)));
}

#[test]
fn sections_of_the_settings() {
    let mut c = sample();
    let s = c.grouped_ids(true, "No group");
    assert_eq!(s.len(), 2);
    assert_eq!((s[0].0.as_deref(), s[0].1.as_slice()), (Some("g"), [2, 3].as_slice()));
    assert_eq!((s[1].0.as_deref(), s[1].1.as_slice()), (Some("No group"), [1].as_slice()));
    c.groups.clear();
    c.ungrouped = vec![1, 2, 3, 11];
    let s = c.grouped_ids(true, "No group");
    assert_eq!(s.len(), 1);
    assert!(s[0].0.is_none());
}

#[test]
fn copies_have_names_of_their_own() {
    let t = strings();
    let mut c = sample();
    let copy = c.duplicate_profile(2, &t);
    assert_eq!(c.profiles[2].id, copy);
    assert_eq!(c.profiles[2].tab.name.as_deref(), Some("b (copy)"));
    assert_eq!(c.groups[0].items, [2, copy, 3]);
    c.copy_profile(2, 500, &t);
    assert!(c.profiles.iter().any(|p| p.id == 500 && p.tab.name.as_deref() == Some("b (copy 2)")));
}
