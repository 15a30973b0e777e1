//! SSH hosts and their editor, the settings, and where the config is kept.

use ronnie::app::App;
use ronnie::color::Color;
use ronnie::config::{Config, Lang, Settings, SshAuth, SshHost};
use ronnie::dirs::{all_but_the_lock, carries_over, config_dir, open_folder, reveal_file, starts_from_copy, Places};
use ronnie::fields::{asks_key, asks_password, KeyChoice};
use ronnie::hosts::{password_stored, HostEditor, Keychain};
use ronnie::log::{crash_file, error, info, should_log};
use ronnie::menu::{MenuAction, MenuItems, Shown};
use ronnie::paths::{config_path, history_path, is_lock, join_any, join_path, log_path, read_only, session_path, LockState};
use ronnie::settings::ConfigEditor;
use ronnie::shortcut::Platform;
use ronnie::sorting::sort_texts;
use ronnie::strings::Strings;
use ronnie::text::{substitute, trim_str};

fn strings() -> Strings {
    Strings {
        unit_b: "B",
        unit_kb: "KB",
        unit_mb: "MB",
        unit_gb: "GB",
        unit_tb: "TB",
        decimal_comma: false,
        files_queued: "Queued",
        files_cancelled: "Cancelled",
        already_running: "Already running",
        config_not_loaded: "Config not loaded",
        config_save_failed: "Config not saved",
        session_not_loaded: "Session not loaded",
        session_save_failed: "Session not saved",
        name_taken: "Name taken",
        host_required: "Required",
        invalid_dash: "No dash",
        invalid_port: "Invalid port",
        key_required: "Key required",
        password_required: "Password required",
        update_available: "Version {v} is available",
        installing: "Installing {v}...",
        update_installed: "Version {v} installed",
        update_failed: "Update failed",
        keychain_failed: "Keychain",
        password_missing: "no password",
        connecting: "Connecting to {host} ({address})",
        paste_title: "Paste {n} lines?",
        commands_general: "General",
        copy_suffix: "copy",
        no_group: "No group",
        untitled: "Untitled",
        new_group_name: "New group",
        layout_panes: "panes",
        search_none: "Not found",
        shortcut_new_tab: "New tab",
        shortcut_close_pane: "Close pane",
        shortcut_split_right: "Split right",
        shortcut_split_down: "Split down",
        shortcut_find_text: "Find",
        history_search: "Search history",
        shortcut_reopen: "Reopen",
        shortcut_clear_pane: "Clear",
        shortcut_open_settings: "Settings",
        shortcut_toggle_files: "Files",
    }
}
fn settings() -> Settings {
    Settings::defaults(Lang::En, "ronnie", Platform::Other)
}

fn host(id: u128, name: &str) -> SshHost {
    let mut h = SshHost::with_id(id);
    h.name = name.to_string();
    h.host = name.to_string();
    h
}

fn editor(h: SshHost) -> HostEditor {
    HostEditor::new(h, true, None, vec!["/k/id".to_string()], String::new())
}

#[test]
fn what_may_be_saved_of_a_host() {
    let t = strings();
    let mut e = editor(host(1, " web "));
    e.port = " 2222 ".to_string();
    e.draft.name = "  ".to_string();
    let h = e.check(&t).unwrap();
    assert_eq!((h.host.as_str(), h.name.as_str(), h.port), ("web", "web", Some(2222)));
    e.port = "0".to_string();
    assert_eq!(e.check(&t).err(), Some("Invalid port"));
    e.port = "70000".to_string();
    assert_eq!(e.check(&t).err(), Some("Invalid port"));
    e.port = String::new();
    e.draft.user = Some(" -oProxyCommand=x".to_string());
    assert_eq!(e.check(&t).err(), Some("No dash"));
    e.draft.user = None;
    e.draft.host = "-x".to_string();
    assert_eq!(e.check(&t).err(), Some("No dash"));
    e.draft.host = "  ".to_string();
    assert_eq!(e.check(&t).err(), Some("Required"));
}

#[test]
fn methods_and_passwords() {
    let t = strings();
    let mut e = editor(host(1, "web"));
    let mut h = e.check(&t).unwrap();
    assert_eq!(e.finish(&mut h, SshAuth::Key, &t).err(), Some("Key required"));
    assert_eq!(e.finish(&mut h, SshAuth::Password, &t).err(), Some("Password required"));
    e.type_password("pw".to_string());
    assert!(matches!(e.finish(&mut h, SshAuth::Password, &t), Ok(Keychain::Save(p)) if p == "pw"));
    e.password_changed = false;
    h.password_saved = true;
    assert!(matches!(e.finish(&mut h, SshAuth::Password, &t), Ok(Keychain::Keep)));
    assert!(matches!(e.finish(&mut h, SshAuth::Ask, &t), Ok(Keychain::Delete)));
    password_stored(&mut h, &Keychain::Delete);
    assert!(!h.password_saved);
    password_stored(&mut h, &Keychain::Save("pw".to_string()));
    assert!(h.password_saved);
    assert!(asks_key(SshAuth::Key) && !asks_key(SshAuth::Ask));
    assert!(asks_password(SshAuth::Key) && !asks_password(SshAuth::Auto));
    e.keychain_failed("locked", &t);
    assert_eq!(e.error.as_deref(), Some("Keychain : locked"));
}

#[test]
fn filling_in_a_host() {
    let mut e = editor(host(1, "web"));
    e.type_user("  me ");
    e.type_jump("   ");
    assert_eq!((e.draft.user.as_deref(), e.draft.jump.as_deref()), (Some("me"), None));
    assert_eq!(e.key_choice(), KeyChoice::Nothing);
    e.pick_key(0);
    assert_eq!(e.key_choice(), KeyChoice::Known);
    e.choose_key("/other".to_string(), "~/other".to_string());
    assert_eq!((e.key_choice(), e.custom_key.as_str()), (KeyChoice::Other, "~/other"));
    e.type_key(" /typed ".to_string());
    assert_eq!(e.draft.identity_file.as_deref(), Some("/typed"));
    let red = Color { r: 1, g: 0, b: 0 };
    e.toggle_color(red);
    assert_eq!(e.draft.color, Some(red));
    e.toggle_color(red);
    assert_eq!(e.draft.color, None);
    e.draft.password_saved = true;
    assert!(e.toggle_reveal());
    e.show_password(Some("pw".to_string()));
    assert!(!e.toggle_reveal());
    e.forget_password();
    assert!(e.password.is_empty() && e.password_changed);
}

#[test]
fn storing_hosts() {
    let mut c = Config::new(settings());
    c.store_host(host(1, "a"), None);
    c.store_host(host(2, "b"), None);
    assert_eq!(c.ungrouped, [1, 2]);
    c.store_host(host(1, "renamed"), None);
    assert_eq!((c.ssh.len(), c.ssh[0].name.as_str()), (2, "renamed"));
    assert_eq!(c.ungrouped, [1, 2]);
    let g = c.new_group("g", false);
    c.store_host(host(1, "renamed"), Some(g));
    assert_eq!((c.ungrouped.clone(), c.groups[0].items.clone()), (vec![2], vec![1]));
}

#[test]
fn importing_hosts() {
    let t = strings();
    let mut c = Config::new(settings());
    c.store_host(host(1, "web"), None);
    let found = vec![host(5, "web"), host(6, "db")];
    assert_eq!(c.new_hosts(&found).len(), 1);
    c.import_ssh(&found);
    assert_eq!(c.ssh.len(), 2);
    let copy = c.copy_host(1, 9, &t).unwrap();
    assert_eq!((copy.name.as_str(), copy.id, copy.password_saved), ("web (copy)", 9, false));
    assert!(c.copy_host(77, 9, &t).is_none());
    let mut app = App::blank(settings());
    app.config = c;
    app.open_ssh(1);
    app.config.ssh[0].imported = true;
    assert_eq!(app.imported(), app.config.ssh.iter().filter(|h| h.imported).map(|h| h.id).collect::<Vec<u128>>());
    app.delete_imported();
    assert!(app.config.ssh.iter().all(|h| !h.imported));
    assert_eq!(app.tabs[0].ssh, None);
}

#[test]
fn editing_the_config_file() {
    let mut e = ConfigEditor::new("{}".to_string());
    assert!(!e.dirty());
    e.follow("{1}");
    assert_eq!(e.text, "{1}");
    e.text = "{2}".to_string();
    e.follow("{3}");
    assert_eq!(e.text, "{2}");
    e.refuse("line 1".to_string());
    assert_eq!(e.error.as_deref(), Some("line 1"));
    e.revert("{3}");
    assert_eq!((e.text.as_str(), e.base.as_str(), e.error.is_none()), ("{3}", "{3}", true));
}

#[test]
fn picking_preferences() {
    let mut app = App::blank(settings());
    app.error = Some("old".to_string());
    assert_eq!(app.pick_settings(settings()), (false, false));
    assert!(app.error.is_some());
    let mut s = settings();
    s.show_cwd = false;
    assert_eq!(app.pick_settings(s), (true, false));
    assert!(!app.config.settings.show_cwd && app.error.is_none());
    let mut s = settings();
    s.theme = "light".to_string();
    assert_eq!(app.pick_settings(s), (true, true));
    app.config_writable = false;
    app.apply_typed(Config::new(settings()));
    assert!(app.config_writable);
    app.settings_dialog = true;
    app.close_settings();
    assert!(!app.settings_dialog);
}

#[test]
fn where_the_config_is_kept() {
    let p = |c: Option<&str>| Places { chosen: c.map(|c| c.to_string()), official: Some("/o".to_string()), dev: Some("/d".to_string()) };
    assert_eq!(config_dir(&p(Some("/t")), true).as_deref(), Some("/t"));
    assert_eq!(config_dir(&p(None), true).as_deref(), Some("/o"));
    assert_eq!(config_dir(&p(None), false).as_deref(), Some("/d"));
    assert!(starts_from_copy(&p(None), false, false, true));
    assert!(!starts_from_copy(&p(None), false, true, true));
    assert!(carries_over(false, true) && !carries_over(true, true));
    let names: Vec<String> = ["config.json", "session.json", "instance.lock", "history"].map(|s| s.to_string()).to_vec();
    assert_eq!(all_but_the_lock(&names), ["config.json", "session.json", "history"]);
    assert!(is_lock("instance.lock") && !is_lock("config.json"));
    assert!(read_only(LockState::Taken) && !read_only(LockState::Unknown));
    assert_eq!(open_folder(Platform::Windows), "explorer");
    assert_eq!(reveal_file("/a/b", Platform::MacOs).1, ["-R", "/a/b"]);
    assert_eq!(reveal_file("/a/b", Platform::Other), ("xdg-open", vec!["/a".to_string()]));
    assert_eq!(reveal_file("C:\\b", Platform::Windows).1, ["/select,C:\\b"]);
}

#[test]
fn paths_of_files() {
    assert_eq!(config_path(Some("/c"), Platform::Other).as_deref(), Some("/c/config.json"));
    assert_eq!(session_path(Some("/c/"), Platform::Other).as_deref(), Some("/c/session.json"));
    assert_eq!(session_path(None, Platform::Other), None);
    assert_eq!(log_path(Some("C:\\c"), Platform::Windows).as_deref(), Some("C:\\c\\ronnie.log"));
    assert_eq!(history_path(Some("/c"), 0, Platform::Other).as_deref(), Some("/c/history/00000000-0000-0000-0000-000000000000"));
    assert_eq!(join_path("", "a", Platform::Other), "a");
    assert_eq!(join_any("/a", "/b", Platform::Other), "/b");
    assert_eq!(join_any("/a", "b", Platform::Other), "/a/b");
}

#[test]
fn settings_and_profiles_of_earlier_versions() {
    let c = Config::from_parts(settings(), Vec::new());
    assert!(c.profiles.is_empty() && c.groups.is_empty() && c.settings.auto_update);
}

#[test]
fn lines_of_the_log() {
    let w = info(5, None, "hello");
    assert_eq!((w.start_over, w.line.as_str()), (false, "5 INFO hello\n"));
    let w = error(7, Some(2 * 1024 * 1024), "bad");
    assert_eq!((w.start_over, w.line.as_str()), (true, "7 ERROR bad\n"));
    assert_eq!(crash_file(12), "crash-12.log");
    assert!(should_log(&Some("a".to_string()), &None));
    assert!(!should_log(&Some("a".to_string()), &Some("a".to_string())));
    assert!(!should_log(&None, &Some("a".to_string())));
}

#[test]
fn the_menu_bar() {
    let items = MenuItems { settings: "1".to_string(), reload: "2".to_string(), quit: "3".to_string() };
    let clicks: Vec<String> = ["3", "9", "1"].map(|s| s.to_string()).to_vec();
    assert_eq!(items.actions(&clicks), [MenuAction::Quit, MenuAction::Settings]);
    let mut shown = Shown { settings: "Settings".to_string(), shortcut: "Cmd+P".to_string() };
    assert!(!shown.sync("Settings", "Cmd+P"));
    assert!(shown.sync("Réglages", "Cmd+P"));
}

#[test]
fn texts() {
    let list: Vec<String> = ["b", "a", "b", "A", "aa"].map(|s| s.to_string()).to_vec();
    assert_eq!(sort_texts(&list), ["A", "a", "aa", "b", "b"]);
    assert_eq!(substitute("{a}{a}b", "{a}", "x{a}"), "x{a}x{a}b");
    assert_eq!(substitute("aaa", "aa", "b"), "ba");
    assert_eq!(trim_str("\u{3000} a b\t\n"), "a b");
}

#[test]
fn picking_a_method_and_a_key() {
    let mut e = editor(host(1, "web"));
    e.pick_auth(SshAuth::Key);
    assert_eq!(e.draft.auth, Some(SshAuth::Key));
    e.custom_key = " ~/.ssh/other ".to_string();
    e.pick_other_key();
    assert_eq!(e.draft.identity_file.as_deref(), Some("~/.ssh/other"));
}
