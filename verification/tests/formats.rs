//! Sizes, modes, times, names and lists, as they are shown.

use ronnie::files::{Dialog, Side, Transfer, TransferState};
use ronnie::format::{
    capitalized, format_size, format_time, mode_string, octal, parse_octal, shown_time, toggle_mode, Moment,
    FIRST_SECOND, LAST_SECOND,
};
use ronnie::rows::{list_lines, row_menu, RowItem};
use ronnie::strings::Strings;

fn strings() -> Strings {
    Strings {
        unit_b: "B",
        unit_kb: "KB",
        unit_mb: "MB",
        unit_gb: "GB",
        unit_tb: "TB",
        decimal_comma: false,
        files_queued: "Queued",
        files_cancelled: "Cancelled",
        already_running: "Already running",
        config_not_loaded: "Config not loaded",
        config_save_failed: "Config not saved",
        session_not_loaded: "Session not loaded",
        session_save_failed: "Session not saved",
        name_taken: "Name taken",
        host_required: "Required",
        invalid_dash: "No dash",
        invalid_port: "Invalid port",
        key_required: "Key required",
        password_required: "Password required",
        update_available: "Version {v} is available",
        installing: "Installing {v}...",
        update_installed: "Version {v} installed",
        update_failed: "Update failed",
        keychain_failed: "Keychain",
        password_missing: "no password",
        connecting: "Connecting to {host} ({address})",
        paste_title: "Paste {n} lines?",
        commands_general: "General",
        copy_suffix: "copy",
        no_group: "No group",
        untitled: "Untitled",
        new_group_name: "New group",
        layout_panes: "panes",
        search_none: "Not found",
        shortcut_new_tab: "New tab",
        shortcut_close_pane: "Close pane",
        shortcut_split_right: "Split right",
        shortcut_split_down: "Split down",
        shortcut_find_text: "Find",
        history_search: "Search history",
        shortcut_reopen: "Reopen",
        shortcut_clear_pane: "Clear",
        shortcut_open_settings: "Settings",
        shortcut_toggle_files: "Files",
    }
}
fn french() -> Strings {
    let mut t = strings();
    t.unit_b = "o";
    t.unit_kb = "Ko";
    t.unit_mb = "Mo";
    t.unit_gb = "Go";
    t.unit_tb = "To";
    t.decimal_comma = true;
    t
}

#[test]
fn formats_modes_and_sizes() {
    assert_eq!(mode_string(0o755, true), "drwxr-xr-x");
    assert_eq!(mode_string(0o640, false), "-rw-r-----");
    let fr = french();
    assert_eq!(format_size(512, &fr), "512 o");
    assert_eq!(format_size(1536, &fr), "1,5 Ko");
    assert_eq!(format_size(5 * 1024 * 1024, &strings()), "5.0 MB");
}

#[test]
fn sizes_at_the_edges() {
    let t = strings();
    assert_eq!(format_size(0, &t), "0 B");
    assert_eq!(format_size(1023, &t), "1023 B");
    assert_eq!(format_size(1024, &t), "1.0 KB");
    assert_eq!(format_size(1024 * 1024 - 1, &t), "1024.0 KB");
    assert_eq!(format_size(1024 * 1024 * 1024, &t), "1.0 GB");
    assert_eq!(format_size(u64::MAX, &t), "16777216.0 TB");
    for n in [1u64, 999, 1500, 10_240, 123_456, 9_999_999, 5_368_709_120, 1 << 55] {
        let mut v = n as f64;
        let units = ["B", "KB", "MB", "GB", "TB"];
        let mut u = 0;
        while v >= 1024.0 && u < 4 {
            v /= 1024.0;
            u += 1;
        }
        let expected = if u == 0 { format!("{n} B") } else { format!("{v:.1} {}", units[u]) };
        assert_eq!(format_size(n, &t), expected);
    }
}

#[test]
fn modes_in_octal() {
    assert_eq!(octal(0o644), "644");
    assert_eq!(octal(0o7), "007");
    assert_eq!(parse_octal("644"), Some(0o644));
    assert_eq!(parse_octal("8"), None);
    assert_eq!(parse_octal(""), None);
    assert_eq!(toggle_mode(0o644, 0o111, true), 0o755);
    assert_eq!(toggle_mode(0o755, 0o111, false), 0o644);
    for mode in 0..0o1000u32 {
        assert_eq!(parse_octal(&octal(mode)), Some(mode));
    }
}

#[test]
fn times_to_the_minute() {
    assert_eq!(format_time(None), "");
    assert_eq!(shown_time(None), "");
    let shown = format_time(Some(1_700_000_000));
    assert_eq!(shown.len(), 16);
    assert!(shown.starts_with("2023-11-1"));
    let moment = |year, month, day, hour, minute| Some(Moment { year, month, day, hour, minute });
    assert_eq!(shown_time(moment(2023, 11, 14, 22, 13)), "2023-11-14 22:13");
    assert_eq!(shown_time(moment(476, 9, 4, 0, 5)), "0476-09-04 00:05");
    assert_eq!(shown_time(moment(0, 1, 1, 23, 59)), "0000-01-01 23:59");
    assert_eq!(shown_time(moment(-44, 3, 15, 12, 0)), "-0044-03-15 12:00");
    assert_eq!(shown_time(moment(12345, 6, 7, 8, 9)), "+12345-06-07 08:09");
}

#[test]
fn times_that_can_be_shown() {
    assert_eq!(format_time(Some(LAST_SECOND)).len(), 19);
    assert_eq!(format_time(Some(LAST_SECOND + 1)), "");
    assert_eq!(format_time(Some(FIRST_SECOND)).len(), 19);
    assert_eq!(format_time(Some(FIRST_SECOND - 1)), "");
    assert_eq!(format_time(Some(i64::MAX)), "");
    assert_eq!(format_time(Some(i64::MIN)), "");
    // Noon, universal time: the same day or a neighbour of it on every clock.
    let days = ["2000-02-28", "2000-02-29", "2000-03-01"];
    let shown = format_time(Some(951_825_600));
    assert!(days.contains(&&shown[..10]), "{shown}");
    for seconds in [-62_135_596_800, -1, 0, 86_399, 1_700_000_000, 253_402_300_799, 253_402_387_200] {
        let local = chrono::TimeZone::timestamp_opt(&chrono::Local, seconds, 0).single().unwrap();
        assert_eq!(format_time(Some(seconds)), local.format("%Y-%m-%d %H:%M").to_string());
    }
}

#[test]
fn first_letters() {
    assert_eq!(capitalized("COULEUR"), "Couleur");
    assert_eq!(capitalized("ÉCRAN"), "Écran");
    assert_eq!(capitalized("ß"), "SS");
    assert_eq!(capitalized(""), "");
}

#[test]
fn lists_in_dialogs() {
    let names: Vec<String> = (1..=10).map(|i| format!("f{i}")).collect();
    let lines = list_lines(&names);
    assert_eq!(lines.len(), 9);
    assert_eq!(lines[0], "•  f1");
    assert_eq!(lines[8], "…  +2");
    assert_eq!(list_lines(&vec!["a".to_string()]), ["•  a"]);
}

#[test]
fn status_of_transfers() {
    let t = strings();
    let mut transfer = Transfer {
        id: 1,
        upload: true,
        label: "f".into(),
        done: 512,
        total: 2048,
        current: "f".into(),
        state: TransferState::Queued,
    };
    assert_eq!(transfer.status(0, &t), "Queued");
    assert!(transfer.is_pending());
    transfer.state = TransferState::Running;
    assert_eq!(transfer.status(1024, &t), "512 B / 2.0 KB  ·  1.0 KB/s");
    transfer.state = TransferState::Done;
    assert_eq!(transfer.status(0, &t), "✔  2.0 KB");
    assert!(!transfer.is_pending());
    transfer.state = TransferState::Failed("cancelled".into());
    assert_eq!(transfer.status(0, &t), "Cancelled");
    transfer.state = TransferState::Failed("disk full".into());
    assert_eq!(transfer.status(0, &t), "✖  disk full");
}

#[test]
fn permissions_dialog() {
    let mut d = Dialog::Chmod {
        names: vec!["a".into()],
        mode: 0o644,
        octal: "644".into(),
        recursive: false,
        any_dir: false,
    };
    d.toggle(0o100, true);
    assert!(matches!(&d, Dialog::Chmod { mode: 0o744, octal, .. } if octal == "744"));
    d.type_octal("600".into());
    assert!(matches!(&d, Dialog::Chmod { mode: 0o600, octal, .. } if octal == "600"));
    d.type_octal("9".into());
    assert!(matches!(&d, Dialog::Chmod { mode: 0o600, octal, .. } if octal == "9"));
}

#[test]
fn menus_of_rows() {
    let remote = row_menu(Side::Remote, true, 1);
    assert!(remote.contains(&RowItem::Open));
    assert!(remote.contains(&RowItem::Permissions));
    let local = row_menu(Side::Local, false, 2);
    assert!(!local.contains(&RowItem::Permissions));
    assert!(!local.contains(&RowItem::Rename));
}
