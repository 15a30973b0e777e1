//! Where things are kept: files of the config directory.

use crate::shortcut::Platform;
use vstd::prelude::*;

verus! {

/// Whether a character separates the parts of a path.
pub open spec fn separator(c: char, platform: Platform) -> bool {
    c == '/' || (platform is Windows && c == '\\')
}

/// Whether a path is a drive and nothing more, such as "C:".
pub open spec fn bare_drive(s: Seq<char>, platform: Platform) -> bool {
    &&& platform is Windows
    &&& s.len() == 2
    &&& ('a' <= s[0] <= 'z' || 'A' <= s[0] <= 'Z')
    &&& s[1] == ':'
}

/// A directory and a relative path below it. A separator comes between them,
/// unless the directory is empty, ends with one or is a bare drive.
pub open spec fn below(dir: Seq<char>, rest: Seq<char>, platform: Platform) -> Seq<char> {
    if dir.len() == 0 || separator(dir.last(), platform) || bare_drive(dir, platform) {
        dir + rest
    } else if platform is Windows {
        dir + seq!['\\'] + rest
    } else {
        dir + seq!['/'] + rest
    }
}

/// Puts a relative path below a directory.
pub fn join_path(dir: &str, rest: &str, platform: Platform) -> (r: String)
    ensures
        r@ == below(dir@, rest@, platform),
{
    let d = crate::text::to_chars(dir);
    let windows = match platform {
        Platform::Windows => true,
        _ => false,
    };
    let n = d.len();
    let bare = windows && n == 2 && (('a' <= d[0] && d[0] <= 'z') || ('A' <= d[0] && d[0] <= 'Z'))
        && d[1] == ':';
    let mut r = String::new();
    r.push_str(dir);
    if !(n == 0 || d[n - 1] == '/' || (windows && d[n - 1] == '\\') || bare) {
        r.push(
            if windows {
                '\\'
            } else {
                '/'
            },
        );
    }
    r.push_str(rest);
    assert(r@ =~= below(dir@, rest@, platform));
    r
}

/// Whether a path begins with a drive, such as "C:".
pub open spec fn has_drive(s: Seq<char>, platform: Platform) -> bool {
    s.len() >= 2 && bare_drive(s.take(2), platform)
}

/// A path seen from a directory: an absolute path stands for itself. On Windows,
/// one that begins at the root keeps the drive of the directory (which is taken to
/// be on a drive, or relative).
pub open spec fn seen_from(dir: Seq<char>, path: Seq<char>, platform: Platform) -> Seq<char> {
    if has_drive(path, platform) {
        path
    } else if path.len() > 0 && separator(path[0], platform) {
        if has_drive(dir, platform) {
            dir.take(2) + path
        } else {
            path
        }
    } else {
        below(dir, path, platform)
    }
}

fn begins_with_drive(d: &Vec<char>, platform: Platform) -> (r: bool)
    ensures
        r == has_drive(d@, platform),
{
    let windows = match platform {
        Platform::Windows => true,
        _ => false,
    };
    windows && d.len() >= 2 && (('a' <= d[0] && d[0] <= 'z') || ('A' <= d[0] && d[0] <= 'Z'))
        && d[1] == ':'
}

/// Joins a directory and a path, which may be absolute.
pub fn join_any(dir: &str, path: &str, platform: Platform) -> (r: String)
    ensures
        r@ == seen_from(dir@, path@, platform),
{
    let p = crate::text::to_chars(path);
    if begins_with_drive(&p, platform) {
        return path.to_owned();
    }
    let windows = match platform {
        Platform::Windows => true,
        _ => false,
    };
    if p.len() > 0 && (p[0] == '/' || (windows && p[0] == '\\')) {
        let d = crate::text::to_chars(dir);
        if !begins_with_drive(&d, platform) {
            return path.to_owned();
        }
        let mut r = String::new();
        r.push(d[0]);
        r.push(d[1]);
        r.push_str(path);
        assert(r@ =~= dir@.take(2) + path@);
        return r;
    }
    join_path(dir, path, platform)
}

/// A file of the config directory, where there is one.
pub open spec fn config_file(dir: Option<Seq<char>>, name: Seq<char>, platform: Platform) -> Option<
    Seq<char>,
> {
    match dir {
        Some(d) => Some(below(d, name, platform)),
        None => None,
    }
}

fn file_in(dir: Option<&str>, name: &str, platform: Platform) -> (r: Option<String>)
    ensures
        crate::text::opt_view(r) == config_file(str_view(dir), name@, platform),
{
    match dir {
        Some(d) => Some(join_path(d, name, platform)),
        None => None,
    }
}

pub open spec fn str_view(s: Option<&str>) -> Option<Seq<char>> {
    match s {
        Some(s) => Some(s@),
        None => None,
    }
}

/// The file holding the config.
pub fn config_path(dir: Option<&str>, platform: Platform) -> (r: Option<String>)
    ensures
        crate::text::opt_view(r) == config_file(str_view(dir), "config.json"@, platform),
        crate::text::opt_view(r) == config_at(str_view(dir), platform),
{
    file_in(dir, "config.json", platform)
}

/// The file holding the session.
pub fn session_path(dir: Option<&str>, platform: Platform) -> (r: Option<String>)
    ensures
        crate::text::opt_view(r) == config_file(str_view(dir), "session.json"@, platform),
        crate::text::opt_view(r) == session_at(str_view(dir), platform),
{
    file_in(dir, "session.json", platform)
}

/// The log file.
pub fn log_path(dir: Option<&str>, platform: Platform) -> (r: Option<String>)
    ensures
        crate::text::opt_view(r) == config_file(str_view(dir), "ronnie.log"@, platform),
        crate::text::opt_view(r) == log_at(str_view(dir), platform),
{
    file_in(dir, "ronnie.log", platform)
}

/// The directory of the command histories.
pub fn history_dir(dir: Option<&str>, platform: Platform) -> (r: Option<String>)
    ensures
        crate::text::opt_view(r) == config_file(str_view(dir), "history"@, platform),
        crate::text::opt_view(r) == histories_at(str_view(dir), platform),
{
    file_in(dir, "history", platform)
}

/// File holding the command history of the terminal `id`.
pub fn history_path(dir: Option<&str>, id: u128, platform: Platform) -> (r: Option<String>)
    ensures
        crate::text::opt_view(r) == config_file(
            config_file(str_view(dir), "history"@, platform),
            crate::ids::id_text(id),
            platform,
        ),
        crate::text::opt_view(r) == history_at(str_view(dir), id, platform),
{
    match history_dir(dir, platform) {
        Some(d) => Some(join_path(d.as_str(), crate::ids::to_text(id).as_str(), platform)),
        None => None,
    }
}

/// The name of the file that an instance locks while it runs.
pub open spec fn lock_name() -> Seq<char> {
    "instance.lock"@
}

/// Whether a file of the config directory stays when everything is erased, and
/// is left out when the directory is copied.
pub fn is_lock(name: &str) -> (r: bool)
    ensures
        r == (name@ == lock_name()),
{
    crate::text::same_str(name, "instance.lock")
}

/// What to do about another running instance.
#[derive(Clone, Copy, PartialEq, Eq, Structural, Debug)]
pub enum LockState {
    /// The lock is ours.
    Held,
    /// Another instance holds it.
    Taken,
    /// The lock cannot be checked.
    Unknown,
}

/// Whether an instance may only read: another one holds the lock. One that
/// cannot check it behaves as the only one.
pub fn read_only(lock: LockState) -> (r: bool)
    ensures
        r == (lock == LockState::Taken),
        r == keeps_from_writing(lock),
{
    lock == LockState::Taken
}

/// Where the config is.
pub open spec fn config_at(dir: Option<Seq<char>>, platform: Platform) -> Option<Seq<char>> {
    config_file(dir, "config.json"@, platform)
}

/// Where the session is.
pub open spec fn session_at(dir: Option<Seq<char>>, platform: Platform) -> Option<Seq<char>> {
    config_file(dir, "session.json"@, platform)
}

/// Where the log is.
pub open spec fn log_at(dir: Option<Seq<char>>, platform: Platform) -> Option<Seq<char>> {
    config_file(dir, "ronnie.log"@, platform)
}

/// Where the histories are.
pub open spec fn histories_at(dir: Option<Seq<char>>, platform: Platform) -> Option<Seq<char>> {
    config_file(dir, "history"@, platform)
}

/// Where the history of a terminal is.
pub open spec fn history_at(dir: Option<Seq<char>>, id: u128, platform: Platform) -> Option<
    Seq<char>,
> {
    config_file(histories_at(dir, platform), crate::ids::id_text(id), platform)
}

/// Whether a lock keeps this one from writing.
pub open spec fn keeps_from_writing(lock: LockState) -> bool {
    lock == LockState::Taken
}

} // verus!
