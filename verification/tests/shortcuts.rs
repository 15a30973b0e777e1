//! Shortcuts, as they are stored, typed and shown.

use ronnie::shortcut::{
    bindings, capture, clashes, conflict, most_specific_first, Binding, Captured, Modifiers, Platform, Shortcut,
    ShortcutAction, Shortcuts,
};
use ronnie::strings::Strings;

fn strings() -> Strings {
    Strings {
        unit_b: "B",
        unit_kb: "KB",
        unit_mb: "MB",
        unit_gb: "GB",
        unit_tb: "TB",
        decimal_comma: false,
        files_queued: "Queued",
        files_cancelled: "Cancelled",
        already_running: "Already running",
        config_not_loaded: "Config not loaded",
        config_save_failed: "Config not saved",
        session_not_loaded: "Session not loaded",
        session_save_failed: "Session not saved",
        name_taken: "Name taken",
        host_required: "Required",
        invalid_dash: "No dash",
        invalid_port: "Invalid port",
        key_required: "Key required",
        password_required: "Password required",
        update_available: "Version {v} is available",
        installing: "Installing {v}...",
        update_installed: "Version {v} installed",
        update_failed: "Update failed",
        keychain_failed: "Keychain",
        password_missing: "no password",
        connecting: "Connecting to {host} ({address})",
        paste_title: "Paste {n} lines?",
        commands_general: "General",
        copy_suffix: "copy",
        no_group: "No group",
        untitled: "Untitled",
        new_group_name: "New group",
        layout_panes: "panes",
        search_none: "Not found",
        shortcut_new_tab: "New tab",
        shortcut_close_pane: "Close pane",
        shortcut_split_right: "Split right",
        shortcut_split_down: "Split down",
        shortcut_find_text: "Find",
        history_search: "Search history",
        shortcut_reopen: "Reopen",
        shortcut_clear_pane: "Clear",
        shortcut_open_settings: "Settings",
        shortcut_toggle_files: "Files",
    }
}
fn none() -> Modifiers {
    Modifiers { alt: false, ctrl: false, shift: false, mac_cmd: false, command: false }
}

#[test]
fn parses_shortcuts() {
    let k = Shortcut("Cmd+Shift+K".into()).parse(Platform::Other).unwrap();
    assert!(k.modifiers.mac_cmd && k.modifiers.shift && !k.modifiers.ctrl);
    assert_eq!(k.logical_key, egui::Key::K.name());
    let typed = Shortcut::typed(Modifiers { ctrl: true, alt: true, ..none() }, egui::Key::F2.name());
    assert_eq!(typed.0, "Ctrl+Alt+F2");
    assert_eq!(typed.parse(Platform::Other).unwrap().logical_key, egui::Key::F2.name());
    assert!(Shortcut("Hyper+K".into()).parse(Platform::Other).is_none());
}

#[test]
fn plus_as_a_key() {
    let k = Shortcut("Cmd++".into()).parse(Platform::MacOs).unwrap();
    assert_eq!(k.logical_key, egui::Key::Plus.name());
    assert!(k.modifiers.mac_cmd && k.modifiers.command);
    assert!(Shortcut("".into()).parse(Platform::MacOs).is_none());
    assert!(Shortcut("Cmd+Nothing".into()).parse(Platform::MacOs).is_none());
}

#[test]
fn command_follows_the_system() {
    assert!(Shortcut("Ctrl+K".into()).parse(Platform::Other).unwrap().modifiers.command);
    assert!(!Shortcut("Ctrl+K".into()).parse(Platform::MacOs).unwrap().modifiers.command);
    assert!(Shortcut(" cmd + k ".into()).parse(Platform::MacOs).unwrap().modifiers.command);
}

#[test]
fn labels() {
    assert_eq!(Shortcut("Cmd+Shift+K".into()).label(Platform::MacOs), "⇧ ⌘ K");
    assert_eq!(Shortcut("Cmd+Shift+K".into()).label(Platform::Other), "Cmd+Shift+K");
    assert_eq!(Shortcut("Hyper+K".into()).label(Platform::MacOs), "Hyper+K");
    assert_eq!(Shortcut("Ctrl+ArrowLeft".into()).label(Platform::MacOs), "⌃ ⏴");
    assert_eq!(Shortcut::command('K', Platform::MacOs).0, "Cmd+K");
    assert_eq!(Shortcut::command('K', Platform::Other).0, "Ctrl+Shift+K");
}

#[test]
fn every_typed_key_is_read_back() {
    let mut n = 0;
    for key in egui::Key::ALL {
        for m in [none(), Modifiers { ctrl: true, shift: true, ..none() }, Modifiers { mac_cmd: true, alt: true, ..none() }] {
            let typed = Shortcut::typed(m, key.name());
            let read = typed.parse(Platform::Other).unwrap();
            assert_eq!(read.logical_key, key.name());
            assert_eq!((read.modifiers.ctrl, read.modifiers.alt, read.modifiers.shift, read.modifiers.mac_cmd), (m.ctrl, m.alt, m.shift, m.mac_cmd));
            n += 1;
        }
    }
    assert!(n > 100);
}

#[test]
fn recording_a_shortcut() {
    let mut s = Shortcuts::defaults(Platform::Other);
    let ctrl = Modifiers { ctrl: true, command: true, ..none() };
    assert_eq!(capture(&mut s, ShortcutAction::NewTab, none(), "T"), Captured::Ignored);
    assert_eq!(s.new_tab.0, "");
    assert_eq!(capture(&mut s, ShortcutAction::NewTab, ctrl, "Escape"), Captured::Cancelled);
    assert_eq!(capture(&mut s, ShortcutAction::NewTab, ctrl, "T"), Captured::Bound);
    assert_eq!(s.new_tab.0, "Ctrl+T");
    assert_eq!(s.clear_pane.0, "Ctrl+Shift+K");
    assert!(!conflict(&s, Platform::Other, ShortcutAction::NewTab));
    *ShortcutAction::ClosePane.get_mut(&mut s) = Shortcut("ctrl + t".into());
    assert!(conflict(&s, Platform::Other, ShortcutAction::NewTab));
    assert!(conflict(&s, Platform::Other, ShortcutAction::ClosePane));
    assert!(!conflict(&s, Platform::Other, ShortcutAction::ClearPane));
}

#[test]
fn the_most_specific_first() {
    let mut s = Shortcuts::defaults(Platform::Other);
    s.new_tab = Shortcut("Ctrl+K".into());
    let b = bindings(&s, Platform::Other);
    let order: Vec<ShortcutAction> = b.iter().map(|b| b.action).collect();
    assert_eq!(order, [ShortcutAction::ClearPane, ShortcutAction::OpenSettings, ShortcutAction::NewTab]);
}

#[test]
fn names_of_actions() {
    let t = strings();
    let all = ShortcutAction::all();
    assert_eq!(all.len(), 10);
    assert_eq!(all[0].label(&t), "New tab");
    assert_eq!(ShortcutAction::FindCommands.label(&t), "Search history");
    let s = Shortcuts::defaults(Platform::MacOs);
    assert_eq!(ShortcutAction::OpenSettings.get(&s).0, "Cmd+P");
}

#[test]
fn keys_that_were_looked_up() {
    let s = Shortcut(" cmd + Option+ k ".into());
    assert_eq!(s.key_text(), "k");
    let k = s.parse_with(Some("K".into()), Platform::MacOs).unwrap();
    assert_eq!(k.logical_key, "K");
    assert!(k.modifiers.mac_cmd && k.modifiers.alt && k.modifiers.command && !k.modifiers.shift && !k.modifiers.ctrl);
    assert!(!s.parse_with(Some("K".into()), Platform::Other).unwrap().modifiers.command);
    assert!(s.parse_with(None, Platform::MacOs).is_none());
    assert!(Shortcut("Hyper+K".into()).parse_with(Some("K".into()), Platform::Other).is_none());
    assert_eq!(Shortcut("Ctrl++".into()).key_text(), "+");
}

#[test]
fn bindings_in_order() {
    let binding = |text: &str, action| Binding { shortcut: Shortcut(text.into()).parse_with(Some("K".into()), Platform::Other).unwrap(), action };
    let list = vec![
        binding("Ctrl+K", ShortcutAction::NewTab),
        binding("Ctrl+Shift+K", ShortcutAction::ClosePane),
        binding("Alt+K", ShortcutAction::FindText),
        binding("Ctrl+Shift+K", ShortcutAction::ClearPane),
    ];
    let order: Vec<ShortcutAction> = most_specific_first(&list).iter().map(|b| b.action).collect();
    assert_eq!(order, [ShortcutAction::ClosePane, ShortcutAction::ClearPane, ShortcutAction::NewTab, ShortcutAction::FindText]);
    assert!(clashes(&list, ShortcutAction::ClosePane) && clashes(&list, ShortcutAction::ClearPane));
    assert!(!clashes(&list, ShortcutAction::NewTab) && !clashes(&list, ShortcutAction::OpenSettings));
}
