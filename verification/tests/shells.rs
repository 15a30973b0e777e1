//! Command histories and the shells that keep them.

use ronnie::ids::to_text;
use ronnie::shell::{
    forget_others, forgotten, outdated, read_history, shell_named, unmetafy, use_history, zsh_dir, Shell,
};
use ronnie::shortcut::Platform;

#[test]
fn reads_zsh_history() {
    let bytes = b": 1700000000:0;git pull\n: 1700000001:0;npm run dev\nls\n: 1700000002:0;echo a\\\nb\n: 1700000003:0;git pull\n".to_vec();
    assert_eq!(read_history(&bytes), ["git pull", "echo a\nb", "ls", "npm run dev"]);
}

#[test]
fn escaped_bytes() {
    // zsh writes "é" (c3 a9) with its second byte escaped.
    assert_eq!(unmetafy(&vec![0xc3, 0x83, 0x89]), [0xc3, 0xa9]);
    assert_eq!(unmetafy(&vec![b'a', 0x83]), [b'a', 0x83]);
    assert_eq!(read_history(&vec![b'l', b's', b' ', 0xc3, 0x83, 0x89, b'\n']), ["ls é"]);
}

#[test]
fn bytes_that_are_no_text() {
    assert_eq!(read_history(&vec![b'a', 0xff, b'\n']), ["a\u{fffd}"]);
}

#[test]
fn blank_lines_are_no_commands() {
    assert!(read_history(&b"\n   \n".to_vec()).is_empty());
    assert!(read_history(&Vec::new()).is_empty());
}

#[test]
fn shells_by_name() {
    assert_eq!(shell_named(Some("zsh")), Shell::Zsh);
    assert_eq!(shell_named(Some("bash")), Shell::Bash);
    assert_eq!(shell_named(Some("fish")), Shell::Other);
    assert_eq!(shell_named(None), Shell::Other);
}

#[test]
fn history_of_each_shell() {
    let dir = zsh_dir("/c", Platform::Other);
    assert_eq!(dir, "/c/shell/zsh");
    let zsh = use_history(Shell::Zsh, &dir, None, Some("/home/me"), "/c/history/x");
    assert!(zsh.iter().any(|v| v.name == "ZDOTDIR" && v.value == dir));
    assert!(zsh.iter().any(|v| v.value == "/c/history/x"));
    let bash = use_history(Shell::Bash, &dir, None, None, "/c/history/x");
    assert!(bash.iter().any(|v| v.name == "HISTFILE" && v.value == "/c/history/x"));
    assert!(!bash.iter().any(|v| v.name == "ZDOTDIR"));
}

#[test]
fn startup_files() {
    assert!(outdated(None, "x"));
    assert!(outdated(Some("y"), "x"));
    assert!(!outdated(Some("x"), "x"));
}

#[test]
fn histories_that_nothing_uses() {
    let (a, b) = (0x1111_1111_1111_4111_8111_1111_1111_1111u128, 0x2222_2222_2222_4222_8222_2222_2222_2222u128);
    assert_eq!(to_text(a), "11111111-1111-4111-8111-111111111111");
    let names = vec![to_text(a), to_text(b), "notes.txt".to_string()];
    assert_eq!(forget_others(&names, &vec![a]), [to_text(b)]);
    assert!(forget_others(&names, &vec![a, b]).is_empty());
    assert!(forgotten(Some(b), &vec![a]));
    assert!(!forgotten(None, &vec![a]));
}
