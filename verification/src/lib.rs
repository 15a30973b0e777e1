//! The state and rules of a tabbed terminal: split panes, saved profiles and
//! SSH hosts, the sidebar, command histories, the file manager of an SSH tab
//! and the password helper.
pub mod actions;
pub mod actions_laws;
pub mod app;
pub mod app_laws;
pub mod arrange;
pub mod arrange_laws;
pub mod askpass;
pub mod browse;
pub mod closing;
pub mod color;
pub mod config;
pub mod config_laws;
pub mod copies;
pub mod dirs;
pub mod editor;
pub mod fields;
pub mod files;
pub mod files_laws;
pub mod find;
pub mod format;
pub mod format_laws;
pub mod hosts;
pub mod hosts_laws;
pub mod ids;
pub mod keeping;
pub mod keys;
pub mod log;
pub mod menu;
pub mod menus;
pub mod menus_laws;
pub mod model;
pub mod names;
pub mod pane;
pub mod pane_laws;
pub mod panel;
pub mod paths;
pub mod popups;
pub mod profiles;
pub mod restore;
pub mod rows;
pub mod rows_laws;
pub mod running;
pub mod running_laws;
pub mod search;
pub mod session;
pub mod session_laws;
pub mod settings;
pub mod sftp;
pub mod sftp_laws;
pub mod shell;
pub mod shortcut;
pub mod shortcut_laws;
pub mod sidebar;
pub mod sidebar_laws;
pub mod sorting;
pub mod startup;
pub mod strings;
pub mod system_laws;
pub mod tab;
pub mod tab_laws;
pub mod text;
pub mod text_laws;
pub mod transfer;
pub mod transfer_laws;
pub mod walk;
pub mod window_laws;
