//! Remote paths and names.

use ronnie::sftp::{join, parent, valid_name};
use ronnie::shortcut::Platform;

#[test]
fn refuses_suspect_names() {
    for bad in ["", ".", "..", "../../.zshenv", "a/b", "x\0y"] {
        assert!(!valid_name(bad, Platform::Other), "{bad:?}");
    }
    for good in ["index.html", ".env", "..hidden", "a b", "été.txt"] {
        assert!(valid_name(good, Platform::Other), "{good:?}");
    }
}

#[test]
fn remote_paths() {
    assert_eq!(join("/", "etc"), "/etc");
    assert_eq!(join("/var/www", "html"), "/var/www/html");
    assert_eq!(parent("/var/www/html"), "/var/www");
    assert_eq!(parent("/var"), "/");
    assert_eq!(parent("/"), "/");
}
