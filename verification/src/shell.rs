//! Shell integration: each local terminal gets its own command history (↑ and the history search),
//! kept across restarts in `<config dir>/history/<id>`.
//!
//! zsh: ZDOTDIR points to Ronnie's startup files, which load the user's usual ones (~/.zshenv,
//! ~/.zprofile, ~/.zshrc, ~/.zlogin) and then switch HISTFILE to the terminal's file.
//! bash: HISTFILE is set in the environment (kept unless ~/.bashrc overrides it).

use crate::ids::{holds_id, id_from_text, id_text, parse_id};
use crate::paths::{below, join_path};
use crate::shortcut::Platform;
use crate::text::{
    begins, find, from_chars, lines, slice, split_lines, starts_with, to_chars, trim, trimmed,
    views,
};
use vstd::prelude::*;
use vstd::utf8::*;

verus! {

/// The bytes of a history with zsh's escapes undone: 0x83 is followed by the
/// byte xor 32.
pub open spec fn unmetafied(bytes: Seq<u8>) -> Seq<u8>
    decreases bytes.len(),
{
    if bytes.len() == 0 {
        Seq::empty()
    } else if bytes[0] == 0x83 && bytes.len() > 1 {
        seq![bytes[1] ^ 32] + unmetafied(bytes.skip(2))
    } else {
        seq![bytes[0]] + unmetafied(bytes.skip(1))
    }
}

/// Undoes zsh's escapes.
pub fn unmetafy(bytes: &Vec<u8>) -> (r: Vec<u8>)
    ensures
        r@ == unmetafied(bytes@),
{
    let mut raw: Vec<u8> = Vec::new();
    let mut i: usize = 0;
    assert(bytes@.skip(0) =~= bytes@);
    while i < bytes.len()
        invariant
            i <= bytes@.len(),
            raw@ + unmetafied(bytes@.skip(i as int)) == unmetafied(bytes@),
        decreases bytes.len() - i,
    {
        let ghost rest = bytes@.skip(i as int);
        let ghost before = raw@;
        let b = bytes[i];
        if b == 0x83 && bytes.len() - i > 1 {
            let x = bytes[i + 1] ^ 32;
            raw.push(x);
            proof {
                assert(rest.skip(2) =~= bytes@.skip(i + 2));
                assert(before + (seq![x] + unmetafied(bytes@.skip(i + 2))) =~= raw@ + unmetafied(
                    bytes@.skip(i + 2),
                ));
            }
            i += 2;
        } else {
            raw.push(b);
            proof {
                assert(rest.skip(1) =~= bytes@.skip(i + 1));
                assert(before + (seq![b] + unmetafied(bytes@.skip(i + 1))) =~= raw@ + unmetafied(
                    bytes@.skip(i + 1),
                ));
            }
            i += 1;
        }
    }
    assert(bytes@.skip(i as int) =~= Seq::empty());
    assert(raw@ + Seq::<u8>::empty() =~= raw@);
    raw
}

/// The text that bytes hold, what is no UTF-8 being replaced.
pub uninterp spec fn text_of_bytes(bytes: Seq<u8>) -> Seq<char>;

/// `String::from_utf8_lossy`: the text that bytes hold. Bytes that are UTF-8 throughout
/// are decoded; what is no UTF-8 becomes the replacement character, in a way that
/// depends on the bytes alone.
#[verifier::external_body]
fn lossy(bytes: &Vec<u8>) -> (r: String)
    ensures
        r@ == text_of_bytes(bytes@),
        valid_utf8(bytes@) ==> r@ == decode_utf8(bytes@),
{
    String::from_utf8_lossy(bytes).into_owned()
}

/// The command on a line: what follows the time and duration of zsh's extended
/// format (`: <time>:<duration>;command`), or the whole line.
pub open spec fn command_on(line: Seq<char>) -> Seq<char> {
    let rest = line.skip(2);
    let n = find(rest, ';');
    if begins(line, ": "@) && n < rest.len() {
        rest.skip(n + 1)
    } else {
        line
    }
}

fn command_of(line: &Vec<char>) -> (r: Vec<char>)
    ensures
        r@ == command_on(line@),
{
    proof {
        reveal_strlit(": ");
    }
    if starts_with(line, ": ") {
        let rest = slice(line, 2, line.len());
        assert(rest@ =~= line@.skip(2));
        let n = crate::text::find_from(&rest, ';', 0);
        assert(rest@.skip(0) =~= rest@);
        if n < rest.len() {
            let r = slice(&rest, n + 1, rest.len());
            assert(r@ =~= rest@.skip(n + 1));
            return r;
        }
    }
    let r = slice(line, 0, line.len());
    assert(r@ =~= line@);
    r
}

/// What reading lines has gathered: the entries, and an entry that goes on.
pub struct Gathered {
    pub entries: Seq<Seq<char>>,
    pub current: Seq<char>,
}

/// The entry that a line starts or continues.
pub open spec fn continued(current: Seq<char>, line: Seq<char>) -> Seq<char> {
    if current.len() == 0 {
        command_on(line)
    } else {
        current + seq!['\n'] + line
    }
}

/// Reads one line: a trailing backslash continues the entry on the next line;
/// blank entries are dropped.
pub open spec fn gather(g: Gathered, line: Seq<char>) -> Gathered {
    let now = continued(g.current, line);
    if now.len() > 0 && now.last() == '\\' {
        Gathered { entries: g.entries, current: now.drop_last() }
    } else if trimmed(now).len() > 0 {
        Gathered { entries: g.entries.push(now), current: Seq::empty() }
    } else {
        Gathered { entries: g.entries, current: Seq::empty() }
    }
}

/// What reading some lines gathers.
pub open spec fn gathered(lines: Seq<Seq<char>>) -> Gathered
    decreases lines.len(),
{
    if lines.len() == 0 {
        Gathered { entries: Seq::empty(), current: Seq::empty() }
    } else {
        gather(gathered(lines.drop_last()), lines.last())
    }
}

/// The first occurrence of each text in a list, in order.
pub open spec fn firsts(s: Seq<Seq<char>>) -> Seq<Seq<char>>
    decreases s.len(),
{
    if s.len() == 0 {
        s
    } else if s.drop_last().contains(s.last()) {
        firsts(s.drop_last())
    } else {
        firsts(s.drop_last()).push(s.last())
    }
}

/// The commands of a history: most recent first, without duplicates.
pub open spec fn commands(text: Seq<char>) -> Seq<Seq<char>> {
    firsts(gathered(lines(text)).entries.reverse())
}

/// Commands of the text of a history file, most recent first, without duplicates.
pub fn history_of(text: &str) -> (r: Vec<String>)
    ensures
        views(r@) == commands(text@),
{
    let all = split_lines(&to_chars(text));
    let ghost ls = lines(text@);
    let mut entries: Vec<String> = Vec::new();
    let mut current: Vec<char> = Vec::new();
    let mut i: usize = 0;
    assert(ls.take(0) =~= Seq::empty());
    assert(views(entries@) =~= Seq::empty());
    assert(current@ =~= Seq::empty());
    while i < all.len()
        invariant
            i <= all@.len(),
            crate::text::char_views(all@) == ls,
            gathered(ls.take(i as int)) == (Gathered {
                entries: views(entries@),
                current: current@,
            }),
        decreases all.len() - i,
    {
        proof {
            assert(ls.take(i + 1).drop_last() =~= ls.take(i as int));
            assert(ls.take(i + 1).last() == all@[i as int]@);
        }
        let ghost was = current@;
        if current.len() == 0 {
            current = command_of(&all[i]);
        } else {
            current.push('\n');
            crate::text::append(&mut current, &all[i]);
            assert(current@ =~= was + seq!['\n'] + all@[i as int]@);
        }
        assert(current@ == continued(was, all@[i as int]@));
        if current.len() > 0 && current[current.len() - 1] == '\\' {
            let ghost c = current@;
            current.pop();
            assert(current@ =~= c.drop_last());
        } else {
            let ghost before = views(entries@);
            if trim(&current).len() > 0 {
                let entry = from_chars(&current);
                entries.push(entry);
                assert(views(entries@) =~= before.push(current@));
            }
            current = Vec::new();
            assert(current@ =~= Seq::empty());
        }
        i += 1;
    }
    assert(ls.take(i as int) =~= ls);
    let ghost found = views(entries@);
    let ghost turned = found.reverse();
    let mut r: Vec<String> = Vec::new();
    let mut n: usize = entries.len();
    assert(turned.take(0) =~= Seq::empty());
    assert(views(r@) =~= Seq::empty());
    while n > 0
        invariant
            n <= entries@.len(),
            found == views(entries@),
            turned == found.reverse(),
            views(r@) == firsts(turned.take(entries@.len() - n)),
        decreases n,
    {
        let ghost k = entries@.len() - n;
        n -= 1;
        proof {
            assert(turned.take(k + 1).drop_last() =~= turned.take(k));
            assert(turned.take(k + 1).last() == entries@[n as int]@);
            lemma_firsts(turned.take(k));
        }
        if !crate::text::holds(&r, entries[n].as_str()) {
            let ghost before = views(r@);
            r.push(entries[n].clone());
            assert(views(r@) =~= before.push(entries@[n as int]@));
        }
    }
    assert(turned.take(entries@.len() as int) =~= turned);
    r
}

/// The firsts of a list are the texts of the list, each once.
proof fn lemma_firsts(s: Seq<Seq<char>>)
    ensures
        forall|x: Seq<char>| #[trigger] firsts(s).contains(x) == s.contains(x),
        firsts(s).no_duplicates(),
    decreases s.len(),
{
    if s.len() > 0 {
        let rest = s.drop_last();
        let y = s.last();
        lemma_firsts(rest);
        assert(s =~= rest.push(y));
        assert forall|x: Seq<char>| #[trigger] firsts(s).contains(x) == s.contains(x) by {
            assert(firsts(rest).contains(x) == rest.contains(x));
            if s.contains(x) {
                let i = choose|i: int| 0 <= i < s.len() && s[i] == x;
                if i < rest.len() {
                    assert(rest[i] == x);
                }
            }
            if rest.contains(x) {
                let i = choose|i: int| 0 <= i < rest.len() && rest[i] == x;
                assert(s[i] == x);
                let k = choose|k: int| 0 <= k < firsts(rest).len() && firsts(rest)[k] == x;
                assert(firsts(s)[k] == x);
            }
            if x == y {
                assert(s[s.len() - 1] == x);
                if !rest.contains(y) {
                    assert(firsts(s)[firsts(s).len() - 1] == x);
                }
            }
        }
        if !rest.contains(y) {
            assert(!firsts(rest).contains(y));
        }
    }
}

/// A history lists every command that was typed once, and nothing else.
pub proof fn law_history_without_duplicates(text: Seq<char>)
    ensures
        commands(text).no_duplicates(),
        forall|c: Seq<char>| #[trigger]
            commands(text).contains(c) == gathered(lines(text)).entries.contains(c),
{
    let entries = gathered(lines(text)).entries;
    lemma_firsts(entries.reverse());
    assert forall|c: Seq<char>| #[trigger]
        commands(text).contains(c) == entries.contains(c) by {
        assert(firsts(entries.reverse()).contains(c) == entries.reverse().contains(c));
        if entries.contains(c) {
            let i = choose|i: int| 0 <= i < entries.len() && entries[i] == c;
            assert(entries.reverse()[entries.len() - 1 - i] == c);
        }
        if entries.reverse().contains(c) {
            let i = choose|i: int| 0 <= i < entries.len() && entries.reverse()[i] == c;
            assert(entries[entries.len() - 1 - i] == c);
        }
    }
}

/// The last command typed comes first.
pub proof fn law_history_most_recent_first(text: Seq<char>)
    requires
        gathered(lines(text)).entries.len() > 0,
    ensures
        commands(text).len() > 0,
        commands(text)[0] == gathered(lines(text)).entries.last(),
{
    let entries = gathered(lines(text)).entries;
    lemma_firsts_head(entries.reverse());
}

proof fn lemma_firsts_head(s: Seq<Seq<char>>)
    requires
        s.len() > 0,
    ensures
        firsts(s).len() > 0,
        firsts(s)[0] == s[0],
    decreases s.len(),
{
    if s.len() > 1 {
        lemma_firsts_head(s.drop_last());
    } else {
        assert(!s.drop_last().contains(s.last()));
        assert(firsts(s.drop_last()) =~= Seq::empty());
    }
}

/// Every command listed has something on it.
pub proof fn law_history_entries_not_blank(ls: Seq<Seq<char>>, i: int)
    requires
        0 <= i < gathered(ls).entries.len(),
    ensures
        trimmed(gathered(ls).entries[i]).len() > 0,
    decreases ls.len(),
{
    if ls.len() > 0 {
        if i < gathered(ls.drop_last()).entries.len() {
            law_history_entries_not_blank(ls.drop_last(), i);
        }
    }
}

/// Commands of a history file, most recent first, without duplicates. Understands zsh's extended
/// format (`: <time>:<duration>;command`), its multi-line entries and its "metafied" bytes.
pub fn read_history(bytes: &Vec<u8>) -> (r: Vec<String>)
    ensures
        views(r@) == commands(text_of_bytes(unmetafied(bytes@))),
        valid_utf8(unmetafied(bytes@)) ==> views(r@) == commands(decode_utf8(unmetafied(bytes@))),
{
    history_of(lossy(&unmetafy(bytes)).as_str())
}

/// The shells whose history can be kept apart.
#[derive(Clone, Copy, PartialEq, Eq, Structural, Debug)]
pub enum Shell {
    Zsh,
    Bash,
    Other,
}

/// Recognises a shell by the name of its program.
pub fn shell_named(name: Option<&str>) -> (r: Shell)
    ensures
        r == match name {
            Some(n) => if n@ == "zsh"@ {
                Shell::Zsh
            } else if n@ == "bash"@ {
                Shell::Bash
            } else {
                Shell::Other
            },
            None => Shell::Other,
        },
        r == shell_of(crate::paths::str_view(name)),
{
    match name {
        Some(n) => {
            if crate::text::same_str(n, "zsh") {
                Shell::Zsh
            } else if crate::text::same_str(n, "bash") {
                Shell::Bash
            } else {
                Shell::Other
            }
        },
        None => Shell::Other,
    }
}

/// The directory of Ronnie's startup files for zsh.
pub fn zsh_dir(config_dir: &str, platform: Platform) -> (r: String)
    ensures
        r@ == below(below(config_dir@, "shell"@, platform), "zsh"@, platform),
        r@ == zsh_folder(config_dir@, platform),
{
    join_path(join_path(config_dir, "shell", platform).as_str(), "zsh", platform)
}

/// A variable of the environment.
#[derive(Debug)]
pub struct Variable {
    pub name: String,
    pub value: String,
}

impl View for Variable {
    type V = (Seq<char>, Seq<char>);

    open spec fn view(&self) -> (Seq<char>, Seq<char>) {
        (self.name@, self.value@)
    }
}

/// What the environment of a shell gets so that it keeps its history in a file.
pub open spec fn history_env(
    shell: Shell,
    zsh_dir: Seq<char>,
    zdotdir: Option<Seq<char>>,
    home: Option<Seq<char>>,
    history: Seq<char>,
) -> Seq<(Seq<char>, Seq<char>)> {
    match shell {
        Shell::Zsh => seq![
            (
                "RONNIE_USER_ZDOTDIR"@,
                match (zdotdir, home) {
                    (Some(d), _) => d,
                    (None, Some(h)) => h,
                    (None, None) => Seq::empty(),
                },
            ),
            ("ZDOTDIR"@, zsh_dir),
            ("RONNIE_HISTFILE"@, history),
        ],
        Shell::Bash => seq![("HISTFILE"@, history)],
        Shell::Other => Seq::empty(),
    }
}

fn variable(name: &str, value: &str) -> (r: Variable)
    ensures
        r@ == (name@, value@),
{
    Variable { name: name.to_owned(), value: value.to_owned() }
}

/// Makes a shell keep its history in `history`.
pub fn use_history(
    shell: Shell,
    zsh_dir: &str,
    zdotdir: Option<&str>,
    home: Option<&str>,
    history: &str,
) -> (r: Vec<Variable>)
    ensures
        crate::model::models(r@) == history_env(
            shell,
            zsh_dir@,
            crate::paths::str_view(zdotdir),
            crate::paths::str_view(home),
            history@,
        ),
{
    let mut r: Vec<Variable> = Vec::new();
    match shell {
        Shell::Zsh => {
            let user_dir = match (zdotdir, home) {
                (Some(d), _) => d.to_owned(),
                (None, Some(h)) => h.to_owned(),
                (None, None) => String::new(),
            };
            r.push(variable("RONNIE_USER_ZDOTDIR", user_dir.as_str()));
            r.push(variable("ZDOTDIR", zsh_dir));
            r.push(variable("RONNIE_HISTFILE", history));
        },
        Shell::Bash => r.push(variable("HISTFILE", history)),
        Shell::Other => {},
    }
    assert(crate::model::models(r@) =~= history_env(
        shell,
        zsh_dir@,
        crate::paths::str_view(zdotdir),
        crate::paths::str_view(home),
        history@,
    ));
    r
}

/// Whether a startup file has to be written: it is not there, or holds something else.
pub fn outdated(existing: Option<&str>, content: &str) -> (r: bool)
    ensures
        r == (crate::paths::str_view(existing) != Some(content@)),
        r == is_outdated(crate::paths::str_view(existing), content@),
{
    match existing {
        Some(s) => !crate::text::same_str(s, content),
        None => true,
    }
}

/// Whether the history of a terminal is to be deleted: the terminal no longer exists.
pub fn forgotten(id: Option<u128>, keep: &Vec<u128>) -> (r: bool)
    ensures
        r == match id {
            Some(id) => !keep@.contains(id),
            None => false,
        },
        r == is_forgotten(id, keep@),
{
    match id {
        Some(id) => !holds_id(keep, id),
        None => false,
    }
}

/// The history files to delete: those named after terminals that no longer
/// exist (not in `keep`). Files named otherwise stay.
pub fn forget_others(names: &Vec<String>, keep: &Vec<u128>) -> (r: Vec<String>)
    ensures
        views(r@) == views(names@).filter(
            |n: Seq<char>| id_from_text(n) is Some && !keep@.contains(id_from_text(n)->0),
        ),
        // The file of a terminal that exists stays; that of any other one goes.
        forall|id: u128| keep@.contains(id) ==> !views(r@).contains(#[trigger] id_text(id)),
        forall|id: u128|
            !keep@.contains(id) && views(names@).contains(#[trigger] id_text(id)) ==> views(
                r@,
            ).contains(id_text(id)),
{
    let mut r: Vec<String> = Vec::new();
    let mut i: usize = 0;
    let ghost all = views(names@);
    let ghost p = |n: Seq<char>|
        id_from_text(n) is Some && !keep@.contains(id_from_text(n)->0);
    proof {
        reveal(Seq::filter);
        assert(all.take(0) =~= Seq::empty());
        assert(views(r@) =~= all.take(0).filter(p));
    }
    while i < names.len()
        invariant
            i <= names@.len(),
            all == views(names@),
            p == (|n: Seq<char>|
                id_from_text(n) is Some && !keep@.contains(id_from_text(n)->0)),
            views(r@) == all.take(i as int).filter(p),
            forall|j: int, id: u128|
                0 <= j < i && #[trigger] all[j] == #[trigger] id_text(id) ==> id_from_text(all[j])
                    == Some(id),
        decreases names.len() - i,
    {
        proof {
            reveal(Seq::filter);
            assert(all.take(i + 1).drop_last() =~= all.take(i as int));
        }
        let ghost before = views(r@);
        if forgotten(parse_id(names[i].as_str()), keep) {
            r.push(names[i].clone());
            assert(views(r@) =~= before.push(all[i as int]));
        }
        i += 1;
    }
    proof {
        assert(all.take(i as int) =~= all);
        broadcast use vstd::seq_lib::group_filter_ensures;

        assert forall|id: u128| keep@.contains(id) implies !views(r@).contains(
            #[trigger] id_text(id),
        ) by {
            if views(r@).contains(id_text(id)) {
                let k = choose|k: int| 0 <= k < views(r@).len() && views(r@)[k] == id_text(id);
                assert(p(all.filter(p)[k]));
                all.lemma_filter_contains_rev(p, id_text(id));
                let j = choose|j: int| 0 <= j < all.len() && all[j] == id_text(id);
                assert(id_from_text(all[j]) == Some(id));
            }
        }
        assert forall|id: u128|
            !keep@.contains(id) && all.contains(#[trigger] id_text(id)) implies views(
            r@,
        ).contains(id_text(id)) by {
            let j = choose|j: int| 0 <= j < all.len() && all[j] == id_text(id);
            assert(id_from_text(all[j]) == Some(id));
            assert(p(all[j]));
        }
    }
    r
}

/// The shell of a name.
pub open spec fn shell_of(name: Option<Seq<char>>) -> Shell {
    match name {
        Some(n) => if n == "zsh"@ {
            Shell::Zsh
        } else if n == "bash"@ {
            Shell::Bash
        } else {
            Shell::Other
        },
        None => Shell::Other,
    }
}

/// The folder of the files that zsh reads.
pub open spec fn zsh_folder(config_dir: Seq<char>, platform: Platform) -> Seq<char> {
    below(below(config_dir, "shell"@, platform), "zsh"@, platform)
}

/// Whether a file is to be written: it is missing or differs.
pub open spec fn is_outdated(existing: Option<Seq<char>>, content: Seq<char>) -> bool {
    existing != Some(content)
}

/// Whether a history is of no terminal any more.
pub open spec fn is_forgotten(id: Option<u128>, keep: Seq<u128>) -> bool {
    match id {
        Some(id) => !keep.contains(id),
        None => false,
    }
}

} // verus!
