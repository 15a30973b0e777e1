//! The password helper: who is answered, and how.

use ronnie::askpass::{
    ask_window, cleaned, parent_pid, pick_path, prompt_of, reply, request_line, Server,
};
use ronnie::shortcut::Platform;

#[test]
fn answers_only_allowed_ssh_once() {
    // The parent of the helper is an ssh started in a pane, whose host has no saved password: the
    // window answers NO, and the next try isn't even looked up.
    let mut server = Server::new();
    let host = 7u128;
    server.allow(100, host);
    let prompt = prompt_of("demo@host's password: \n");
    let d = server.answer(Some(100), &prompt).unwrap();
    assert_eq!(d.password_of, Some(host));
    assert!(d.ask.is_none());
    assert_eq!(reply(&None), "NO\n");
    assert_eq!(server.answered.len(), 1, "counted as tried");
    let again = server.answer(Some(100), &prompt).unwrap();
    assert_eq!(again.password_of, None);

    server.allowed.clear();
    assert!(server.answer(Some(100), "password: ").is_none(), "a process no pane started gets nothing");
    assert!(server.answer(None, "password: ").is_none());
}

#[test]
fn asks_the_user_until_refused() {
    let mut server = Server::new();
    server.set_prompter();
    server.allow_interactive(5, 9, "web");
    let d = server.answer(Some(5), "Are you sure (YES/no)?").unwrap();
    let p = d.ask.unwrap();
    assert_eq!((p.host.as_str(), p.secret), ("web", false));
    assert_eq!(d.password_of, None);
    let d = server.answer(Some(5), "Password: ").unwrap();
    assert_eq!(d.password_of, Some(9));
    assert!(d.ask.unwrap().secret);
    server.refuse(5);
    assert!(server.answer(Some(5), "Password: ").unwrap().ask.is_none());
}

#[test]
fn a_passphrase_is_no_password() {
    let mut server = Server::new();
    server.allow(1, 2);
    assert_eq!(server.answer(Some(1), "Enter passphrase or password").unwrap().password_of, None);
    assert!(server.answered.is_empty());
}

#[test]
fn the_answer_arrives() {
    for password in ["s3cret", "", " spaces ", "é\tx"] {
        let sent = reply(&Some(password.to_string()));
        let mut lines = sent.split_inclusive('\n');
        let (status, rest) = (lines.next().unwrap(), lines.next().unwrap());
        assert_eq!(ask_window(status, rest).as_deref(), Some(password));
    }
    assert_eq!(ask_window("NO\n", ""), None);
}

#[test]
fn one_line_for_a_prompt() {
    assert_eq!(request_line("a\nb"), "a b\n");
    assert_eq!(prompt_of("a b\r\n"), "a b");
}

#[test]
fn prompts_fit_to_be_shown() {
    assert!(!cleaned("a\u{1b}[2Jb").contains('\u{1b}'));
    assert_eq!(cleaned(&"x".repeat(600)).chars().count(), 500);
}

#[test]
fn reads_the_parent_of_a_process() {
    assert_eq!(parent_pid("42 (a (b) c) S 17 42 42 0"), Some(17));
    assert_eq!(parent_pid("42 (sh) S"), None);
    assert_eq!(parent_pid("nothing"), None);
    assert_eq!(parent_pid("42 (sh) S 99999999999 1"), None);
}

#[test]
fn where_the_socket_is() {
    assert_eq!(pick_path(5, Some("/run/user/1"), "/tmp", Some("/c"), Platform::Other).unwrap(), "/run/user/1/ronnie-askpass-5.sock");
    assert_eq!(pick_path(5, None, "/tmp", Some("/c"), Platform::Other).unwrap(), "/c/ronnie-askpass-5.sock");
    assert_eq!(pick_path(5, None, "/tmp", Some("/c"), Platform::MacOs).unwrap(), "/tmp/ronnie-askpass-5.sock");
    assert_eq!(pick_path(5, None, "/tmp", None, Platform::Other), None);
}

#[test]
fn the_path_of_the_socket() {
    let socket = ronnie::askpass::Socket { path: Some("/run/s".to_string()) };
    assert_eq!(ronnie::askpass::socket_path(&socket), Some("/run/s"));
    assert_eq!(ronnie::askpass::socket_path(&ronnie::askpass::Socket { path: None }), None);
}

#[test]
fn only_its_own_processes_are_known() {
    let mut server = Server::new();
    server.allow(5, 1);
    assert!(server.knows(Some(5)));
    assert!(!server.knows(Some(6)));
    assert!(!server.knows(None));
}
