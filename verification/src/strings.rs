//! Texts of the interface that the rules depend on, in one language.

use crate::shortcut::ShortcutAction;
use vstd::prelude::*;

verus! {

/// The texts of one language.
#[derive(Clone, Copy, Debug)]
pub struct Strings {
    /// Units of file sizes.
    pub unit_b: &'static str,
    pub unit_kb: &'static str,
    pub unit_mb: &'static str,
    pub unit_gb: &'static str,
    pub unit_tb: &'static str,
    /// A comma, rather than a point, before the decimals.
    pub decimal_comma: bool,
    /// Transfers that wait, and that were cancelled.
    pub files_queued: &'static str,
    pub files_cancelled: &'static str,
    /// Errors shown to the user.
    pub already_running: &'static str,
    pub config_not_loaded: &'static str,
    pub config_save_failed: &'static str,
    pub session_not_loaded: &'static str,
    pub session_save_failed: &'static str,
    pub name_taken: &'static str,
    pub host_required: &'static str,
    pub invalid_dash: &'static str,
    pub invalid_port: &'static str,
    pub key_required: &'static str,
    pub password_required: &'static str,
    /// What is said of a new release, with `{v}`: it can be installed, it is being
    /// installed, or it was.
    pub update_available: &'static str,
    pub installing: &'static str,
    pub update_installed: &'static str,
    pub update_failed: &'static str,
    pub keychain_failed: &'static str,
    pub password_missing: &'static str,
    /// What is shown while a server does not answer, with `{host}` and `{address}`.
    pub connecting: &'static str,
    /// The question about pasting `{n}` lines.
    pub paste_title: &'static str,
    /// The title of the commands that every tab offers.
    pub commands_general: &'static str,
    /// What tells a copy from what it was made of.
    pub copy_suffix: &'static str,
    pub no_group: &'static str,
    pub untitled: &'static str,
    pub new_group_name: &'static str,
    /// What follows a number of panes.
    pub layout_panes: &'static str,
    /// A search that found nothing.
    pub search_none: &'static str,
    pub shortcut_new_tab: &'static str,
    pub shortcut_close_pane: &'static str,
    pub shortcut_split_right: &'static str,
    pub shortcut_split_down: &'static str,
    pub shortcut_find_text: &'static str,
    pub history_search: &'static str,
    pub shortcut_reopen: &'static str,
    pub shortcut_clear_pane: &'static str,
    pub shortcut_open_settings: &'static str,
    pub shortcut_toggle_files: &'static str,
}

impl Strings {
    /// The unit of a size divided that many times.
    pub open spec fn unit(self, n: int) -> Seq<char> {
        if n <= 0 {
            self.unit_b@
        } else if n == 1 {
            self.unit_kb@
        } else if n == 2 {
            self.unit_mb@
        } else if n == 3 {
            self.unit_gb@
        } else {
            self.unit_tb@
        }
    }

    /// What the settings call an action.
    pub open spec fn action(self, a: ShortcutAction) -> Seq<char> {
        match a {
            ShortcutAction::NewTab => self.shortcut_new_tab@,
            ShortcutAction::ClosePane => self.shortcut_close_pane@,
            ShortcutAction::SplitRight => self.shortcut_split_right@,
            ShortcutAction::SplitDown => self.shortcut_split_down@,
            ShortcutAction::FindText => self.shortcut_find_text@,
            ShortcutAction::FindCommands => self.history_search@,
            ShortcutAction::ReopenTab => self.shortcut_reopen@,
            ShortcutAction::ClearPane => self.shortcut_clear_pane@,
            ShortcutAction::OpenSettings => self.shortcut_open_settings@,
            ShortcutAction::ToggleFiles => self.shortcut_toggle_files@,
        }
    }
}

} // verus!
