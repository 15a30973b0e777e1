//! What is written beside the window: the log, the folders, the histories of the shells and
//! the answers to ssh.

use crate::askpass::{
    asked_on, asking_line, decided, parent_in, picked_path, reply_text, showable, shown_prompt,
    socket_name, ServerModel,
};
use crate::dirs::{copies_config, opener, place_of, reveal_args, takes_former, Places};
use crate::log::{crash_name, level_text, line_text, to_log, written, Level};
use crate::paths::{
    below, config_at, histories_at, history_at, keeps_from_writing, lock_name, log_at, session_at,
    LockState,
};
use crate::shell::{
    command_on, gathered, history_env, is_forgotten, is_outdated, shell_of, unmetafied, zsh_folder,
    Shell,
};
use crate::shortcut::Platform;
use crate::text::{
    begins, decimal, drop_back, ends, has_text, law_decimal_read_back, lemma_find_is, number,
    opt_view, replaced, trimmed, words,
};
use crate::transfer_laws::law_below;
use vstd::prelude::*;

verus! {

/// A line of the log starts with the time and ends with the message; the log starts over
/// where it has grown too large.
pub proof fn law_log_line(now: nat, size: Option<u64>, level: Level, message: Seq<char>)
    ensures
        begins(written(now, size, level, message).1, decimal(now)),
        ends(written(now, size, level, message).1, message.push('\n')),
        has_text(written(now, size, level, message).1, level_text(level)),
        size is None ==> !written(now, size, level, message).0,
        size matches Some(n) ==> written(now, size, level, message).0 == (n > 0x10_0000),
        level_text(Level::Info) != level_text(Level::Error),
{
    let r = line_text(now, level, message);
    let d = decimal(now);
    let l = level_text(level);
    assert(r.take(d.len() as int) =~= d);
    assert(r.skip(r.len() - message.len() - 1) =~= message.push('\n'));
    let i = d.len() as int + 1;
    assert(r.subrange(i, i + l.len()) =~= l);
    reveal_strlit("INFO");
    reveal_strlit("ERROR");
}

/// Two crashes at different times are written to different files.
pub proof fn law_crash_files(a: nat, b: nat)
    ensures
        crash_name(a) == crash_name(b) ==> a == b,
        begins(crash_name(a), "crash-"@),
        ends(crash_name(a), ".log"@),
{
    reveal_strlit("crash-");
    reveal_strlit(".log");
    law_decimal_read_back(a);
    law_decimal_read_back(b);
    let (x, y) = (crash_name(a), crash_name(b));
    assert(x.subrange(6, x.len() - 4) =~= decimal(a));
    assert(y.subrange(6, y.len() - 4) =~= decimal(b));
    assert(x.take(6) =~= "crash-"@);
    assert(x.skip(x.len() - 4) =~= ".log"@);
}

/// An error is logged once.
pub proof fn law_logged_once(shown: Seq<char>, logged: Option<Seq<char>>)
    ensures
        !to_log(None, logged),
        !to_log(Some(shown), Some(shown)),
        logged != Some(shown) ==> to_log(Some(shown), logged),
{
}

/// The config is in the folder that was chosen, else in that of the app, or of local builds.
pub proof fn law_config_place(p: Places, published: bool)
    ensures
        p.chosen matches Some(d) ==> place_of(p, published) == Some(d@),
        p.chosen is None && p.official is Some ==> place_of(p, true) == opt_view(p.official),
        p.chosen is None && p.official is Some ==> place_of(p, false) == opt_view(p.dev),
        p.chosen is None && p.official is None ==> place_of(p, published) is None,
{
}

/// A local build starts from a copy of the config of the app once, and only where nothing was
/// chosen; a former folder is taken over only where there is none yet.
pub proof fn law_config_copied(p: Places, published: bool, dev_exists: bool, official_is_dir: bool)
    ensures
        published ==> !copies_config(p, published, dev_exists, official_is_dir),
        dev_exists ==> !copies_config(p, published, dev_exists, official_is_dir),
        !official_is_dir ==> !copies_config(p, published, dev_exists, official_is_dir),
        p.chosen is Some ==> !copies_config(p, published, dev_exists, official_is_dir),
        p.chosen is None && p.official is Some && p.dev is Some ==> copies_config(
            p,
            false,
            false,
            true,
        ),
        takes_former(false, true),
        !takes_former(true, true),
        !takes_former(false, false),
{
}

/// Each system opens folders in its own way.
pub proof fn law_openers()
    ensures
        opener(Platform::MacOs) == "open"@,
        opener(Platform::Windows) == "explorer"@,
        opener(Platform::Other) == "xdg-open"@,
{
}

/// The files of the app are in its folder, each under its own name.
pub proof fn law_files_in_place(dir: Seq<char>, platform: Platform, id: u128)
    ensures
        config_at(Some(dir), platform) matches Some(p) && begins(p, dir) && ends(p, "config.json"@),
        session_at(Some(dir), platform) matches Some(p) && begins(p, dir) && ends(
            p,
            "session.json"@,
        ),
        log_at(Some(dir), platform) matches Some(p) && begins(p, dir) && ends(p, "ronnie.log"@),
        histories_at(Some(dir), platform) matches Some(p) && begins(p, dir) && ends(p, "history"@),
        history_at(Some(dir), id, platform) matches Some(p) && ends(p, crate::ids::id_text(id))
            && begins(p, histories_at(Some(dir), platform)->0),
        config_at(None, platform) is None,
        session_at(None, platform) is None,
        log_at(None, platform) is None,
        history_at(None, id, platform) is None,
        begins(zsh_folder(dir, platform), dir),
        ends(zsh_folder(dir, platform), "zsh"@),
        lock_name() == "instance.lock"@,
{
    law_below(dir, "config.json"@, platform);
    law_below(dir, "session.json"@, platform);
    law_below(dir, "ronnie.log"@, platform);
    law_below(dir, "history"@, platform);
    law_below(below(dir, "history"@, platform), crate::ids::id_text(id), platform);
    let s = below(dir, "shell"@, platform);
    law_below(dir, "shell"@, platform);
    law_below(s, "zsh"@, platform);
    let z = zsh_folder(dir, platform);
    assert(z.take(dir.len() as int) =~= z.take(s.len() as int).take(dir.len() as int));
}

/// Only a lock that another one holds keeps this one from writing.
pub proof fn law_lock()
    ensures
        keeps_from_writing(LockState::Taken),
        !keeps_from_writing(LockState::Held),
        !keeps_from_writing(LockState::Unknown),
{
}

/// A byte that zsh marked comes back as it was; the others stay.
pub proof fn law_unmetafied(b: u8, rest: Seq<u8>)
    ensures
        unmetafied(seq![0x83u8, b ^ 32] + rest) == seq![b] + unmetafied(rest),
        b != 0x83 ==> unmetafied(seq![b] + rest) == seq![b] + unmetafied(rest),
        unmetafied(Seq::empty()).len() == 0,
{
    assert((b ^ 32) ^ 32 == b) by (bit_vector);
    let x = seq![0x83u8, b ^ 32] + rest;
    assert(x.skip(2) =~= rest);
    let y = seq![b] + rest;
    assert(y.skip(1) =~= rest);
}

/// The time that zsh writes before a command is left out; a line without it is the command.
pub proof fn law_command_on(stamp: Seq<char>, command: Seq<char>, line: Seq<char>)
    ensures
        !stamp.contains(';') ==> command_on(": "@ + stamp + seq![';'] + command) == command,
        !begins(line, ": "@) ==> command_on(line) == line,
{
    if !stamp.contains(';') {
        reveal_strlit(": ");
        let all = ": "@ + stamp + seq![';'] + command;
        let rest = all.skip(2);
        assert(rest =~= stamp + seq![';'] + command);
        assert forall|i: int| 0 <= i < stamp.len() implies rest[i] != ';' by {
            assert(rest[i] == stamp[i]);
        }
        lemma_find_is(rest, ';', stamp.len() as int);
        assert(all.take(2) =~= ": "@);
        assert(rest.skip(stamp.len() as int + 1) =~= command);
    }
}

/// Every line that is no continuation is a command of its own, the last one last; a blank one
/// is none.
pub proof fn law_history_line(ls: Seq<Seq<char>>, line: Seq<char>)
    requires
        gathered(ls).current.len() == 0,
        command_on(line).len() > 0 ==> command_on(line).last() != '\\',
    ensures
        trimmed(command_on(line)).len() > 0 ==> gathered(ls.push(line)).entries == gathered(
            ls,
        ).entries.push(command_on(line)),
        trimmed(command_on(line)).len() == 0 ==> gathered(ls.push(line)).entries == gathered(
            ls,
        ).entries,
        gathered(ls.push(line)).current.len() == 0,
{
    assert(ls.push(line).drop_last() =~= ls);
}

/// A line that ends with a backslash goes on with the next one.
pub proof fn law_history_continued(ls: Seq<Seq<char>>, first: Seq<char>, second: Seq<char>)
    requires
        gathered(ls).current.len() == 0,
        first.len() > 1,
        !begins(first, ": "@),
        first.last() == '\\',
        second.len() > 0,
        second.last() != '\\',
        trimmed(first.drop_last() + seq!['\n'] + second).len() > 0,
    ensures
        gathered(ls.push(first).push(second)).entries == gathered(ls).entries.push(
            first.drop_last() + seq!['\n'] + second,
        ),
{
    assert(ls.push(first).drop_last() =~= ls);
    assert(ls.push(first).push(second).drop_last() =~= ls.push(first));
    let g = gathered(ls.push(first));
    assert(g.current == first.drop_last());
    let now = first.drop_last() + seq!['\n'] + second;
    assert(now.last() == second.last());
}

/// A shell writes the history of its pane: zsh through files of ours, which read those of the
/// user, bash by itself, and others not.
pub proof fn law_history_env(
    zsh_dir: Seq<char>,
    zdotdir: Option<Seq<char>>,
    home: Option<Seq<char>>,
    history: Seq<char>,
)
    ensures
        ({
            let e = history_env(Shell::Zsh, zsh_dir, zdotdir, home, history);
            &&& e.len() == 3
            &&& e.contains(("ZDOTDIR"@, zsh_dir))
            &&& e.contains(("RONNIE_HISTFILE"@, history))
            &&& zdotdir matches Some(d) ==> e.contains(("RONNIE_USER_ZDOTDIR"@, d))
            &&& zdotdir is None && home is Some ==> e.contains(("RONNIE_USER_ZDOTDIR"@, home->0))
        }),
        history_env(Shell::Bash, zsh_dir, zdotdir, home, history) == seq![("HISTFILE"@, history)],
        history_env(Shell::Other, zsh_dir, zdotdir, home, history).len() == 0,
        shell_of(Some("zsh"@)) == Shell::Zsh,
        shell_of(Some("bash"@)) == Shell::Bash,
        shell_of(None) == Shell::Other,
{
    let e = history_env(Shell::Zsh, zsh_dir, zdotdir, home, history);
    assert(e[1] == ("ZDOTDIR"@, zsh_dir));
    assert(e[2] == ("RONNIE_HISTFILE"@, history));
    assert(e[0].0 == "RONNIE_USER_ZDOTDIR"@);
    if let Some(d) = zdotdir {
        assert(e[0] == ("RONNIE_USER_ZDOTDIR"@, d));
    } else if let Some(h) = home {
        assert(e[0] == ("RONNIE_USER_ZDOTDIR"@, h));
    }
    reveal_strlit("zsh");
    reveal_strlit("bash");
    assert("zsh"@.len() != "bash"@.len());
}

/// A file is written where it is missing or differs; a history is forgotten where no terminal
/// has it, and a file that is no history never.
pub proof fn law_kept_files(content: Seq<char>, other: Seq<char>, id: u128, keep: Seq<u128>)
    ensures
        is_outdated(None, content),
        !is_outdated(Some(content), content),
        other != content ==> is_outdated(Some(other), content),
        keep.contains(id) ==> !is_forgotten(Some(id), keep),
        !keep.contains(id) ==> is_forgotten(Some(id), keep),
        !is_forgotten(None, keep),
{
}

/// A saved password is given to a process that this window started, for its own host, once,
/// and where a password is asked for; not where a passphrase is.
pub proof fn law_password_given(s: ServerModel, ssh: u32, prompt: Seq<char>, lower: Seq<char>)
    requires
        s.allowed.dom().contains(ssh),
    ensures
        ({
            let (after, d) = decided(s, ssh, prompt, lower);
            &&& d.password_of matches Some(h) ==> h == s.allowed[ssh] && has_text(lower, "password"@)
                && !has_text(lower, "passphrase"@) && !s.answered.contains(ssh)
                && after.answered.contains(ssh)
            &&& has_text(lower, "password"@) && !has_text(lower, "passphrase"@) && !s.answered.contains(
                ssh,
            ) ==> d.password_of == Some(s.allowed[ssh])
            &&& d.ssh == ssh
            &&& after.allowed == s.allowed
        }),
{
}

/// Another question is asked in the window of the process that has no terminal, with the name
/// of its host; what is typed is hidden, but for a yes or no.
pub proof fn law_question_asked(s: ServerModel, ssh: u32, prompt: Seq<char>, lower: Seq<char>)
    requires
        s.allowed.dom().contains(ssh),
    ensures
        ({
            let d = decided(s, ssh, prompt, lower).1;
            &&& d.ask is Some == (s.prompter && s.interactive.contains(ssh) && !s.refused.contains(
                ssh,
            ))
            &&& d.ask matches Some(q) ==> q.text == shown_prompt(prompt) && q.secret != has_text(
                lower,
                "yes/no"@,
            ) && (s.names.dom().contains(s.allowed[ssh]) ==> q.host == s.names[s.allowed[ssh]])
        }),
{
}

/// A process that is not known gets no answer; one that is allowed is.
pub proof fn law_only_own_processes(
    s: ServerModel,
    ssh: u32,
    host: u128,
    name: Seq<char>,
    prompt: Seq<char>,
    lower: Seq<char>,
)
    ensures
        s.decision(None, prompt, lower) is None,
        !s.allowed.dom().contains(ssh) ==> s.decision(Some(ssh), prompt, lower) is None && s.asked(
            Some(ssh),
            prompt,
            lower,
        ) == s,
        s.allowed.dom().contains(ssh) ==> s.decision(Some(ssh), prompt, lower) is Some,
        s.allow(ssh, host).allowed.dom().contains(ssh),
        s.allow(ssh, host).allowed[ssh] == host,
        s.allow_interactive(ssh, host, name).allowed[ssh] == host,
        s.allow_interactive(ssh, host, name).interactive.contains(ssh),
        s.allow_interactive(ssh, host, name).names[host] == name,
        s.allow(ssh, host).interactive == s.interactive,
        ServerModel::blank().decision(Some(ssh), prompt, lower) is None,
        s.with_prompter().prompter,
        s.with_prompter().allowed == s.allowed,
        s.refusing(ssh).refused.contains(ssh),
{
}

/// What is shown of a question holds no control characters, and none that turn the writing
/// round; the rest stands in its order, up to a length.
pub proof fn law_prompt_shown(s: Seq<char>, i: int)
    ensures
        shown_prompt(s).len() <= 500,
        0 <= i < shown_prompt(s).len() ==> s.contains(shown_prompt(s)[i]) && shown_prompt(s)[i] as u32
            >= 0x20 && !(0x7f <= shown_prompt(s)[i] as u32 <= 0x9f) && !(0x202a
            <= shown_prompt(s)[i] as u32 <= 0x202e) && !(0x2066 <= shown_prompt(s)[i] as u32
            <= 0x2069),
        s.len() <= 500 && (forall|k: int| 0 <= k < s.len() ==> ' ' <= #[trigger] s[k] <= '~')
            ==> shown_prompt(s) == s,
{
    broadcast use vstd::seq_lib::group_filter_ensures;

    let f = |c: char| showable(c);
    let t = s.filter(f);
    if 0 <= i < shown_prompt(s).len() {
        assert(shown_prompt(s)[i] == t[i]);
        assert(f(t[i]));
        assert(t.contains(t[i]));
        s.lemma_filter_contains_rev(f, t[i]);
    }
    if s.len() <= 500 && (forall|k: int| 0 <= k < s.len() ==> ' ' <= #[trigger] s[k] <= '~') {
        lemma_all_kept(s);
    }
}

proof fn lemma_all_kept(s: Seq<char>)
    requires
        forall|k: int| 0 <= k < s.len() ==> ' ' <= #[trigger] s[k] <= '~',
    ensures
        s.filter(|c: char| showable(c)) == s,
    decreases s.len(),
{
    reveal(Seq::filter);
    let f = |c: char| showable(c);
    if s.len() > 0 {
        let rest = s.drop_last();
        assert forall|k: int| 0 <= k < rest.len() implies ' ' <= #[trigger] rest[k] <= '~' by {
            assert(rest[k] == s[k]);
        }
        lemma_all_kept(rest);
        assert(' ' <= s[s.len() - 1] <= '~');
        assert(rest.push(s.last()) =~= s);
    }
}

/// The socket is in the folder of the session where there is one; each window has its own.
pub proof fn law_socket(
    a: u32,
    b: u32,
    runtime_dir: Seq<char>,
    temp_dir: Seq<char>,
    config_dir: Seq<char>,
    platform: Platform,
)
    ensures
        picked_path(a, Some(runtime_dir), temp_dir, Some(config_dir), platform) matches Some(p)
            && begins(p, runtime_dir) && ends(p, socket_name(a)),
        picked_path(a, None, temp_dir, Some(config_dir), Platform::MacOs) matches Some(p) && begins(
            p,
            temp_dir,
        ),
        picked_path(a, None, temp_dir, Some(config_dir), Platform::Other) matches Some(p) && begins(
            p,
            config_dir,
        ),
        picked_path(a, None, temp_dir, None, Platform::Other) is None,
        socket_name(a) == socket_name(b) ==> a == b,
{
    law_below(runtime_dir, socket_name(a), platform);
    law_below(temp_dir, socket_name(a), Platform::MacOs);
    law_below(config_dir, socket_name(a), Platform::Other);
    reveal_strlit("ronnie-askpass-");
    reveal_strlit(".sock");
    law_decimal_read_back(a as nat);
    law_decimal_read_back(b as nat);
    let (x, y) = (socket_name(a), socket_name(b));
    assert(x.subrange(15, x.len() - 5) =~= decimal(a as nat));
    assert(y.subrange(15, y.len() - 5) =~= decimal(b as nat));
}

/// A question of one line arrives as it was asked.
pub proof fn law_question_arrives(prompt: Seq<char>)
    requires
        !prompt.contains('\n'),
        prompt.len() > 0 ==> prompt.last() != '\r',
    ensures
        asked_on(asking_line(prompt)) == prompt,
{
    assert forall|i: int| 0 <= i < prompt.len() implies prompt[i] != '\n' by {
        if prompt[i] == '\n' {
            assert(prompt.contains('\n'));
        }
    }
    assert(replaced(prompt, '\n', ' ') =~= prompt);
    let line = asking_line(prompt);
    assert(line.drop_last() =~= prompt);
    reveal_with_fuel(drop_back, 2);
}

/// A question is asked on one line, whatever it holds.
pub proof fn law_question_on_one_line(prompt: Seq<char>, i: int)
    requires
        0 <= i < asking_line(prompt).len(),
    ensures
        asking_line(prompt).len() == prompt.len() + 1,
        (asking_line(prompt)[i] == '\n') == (i == prompt.len()),
{
}

/// No answer is told apart from every answer.
pub proof fn law_no_answer(a: Seq<char>)
    ensures
        reply_text(None) != reply_text(Some(a)),
        begins(reply_text(Some(a)), "OK\n"@),
        begins(reply_text(None), "NO\n"@),
{
    reveal_strlit("OK\n");
    reveal_strlit("NO\n");
    assert(reply_text(Some(a)).take(3) =~= "OK\n"@);
    assert(reply_text(None).take(3) =~= "NO\n"@);
    assert("OK\n"@[0] != "NO\n"@[0]);
    assert(reply_text(Some(a))[0] == 'O');
    assert(reply_text(None)[0] == 'N');
}

/// The parent of a process is the second word after the last bracket: the name of a program
/// may hold brackets.
pub proof fn law_parent(a: Seq<char>, b: Seq<char>)
    requires
        !b.contains(')'),
    ensures
        words(b).len() >= 2 ==> parent_in(a + seq![')'] + b) == number(words(b)[1], 10, 0xffff_ffff),
        words(b).len() < 2 ==> parent_in(a + seq![')'] + b) is None,
        parent_in(b) is None,
{
    let s = a + seq![')'] + b;
    assert forall|j: int| a.len() < j < s.len() implies #[trigger] s[j] != ')' by {
        assert(s[j] == b[j - a.len() - 1]);
        assert(b.contains(b[j - a.len() - 1]));
    }
    crate::text::lemma_last_place_is(s, ')', a.len() as int);
    assert(s.skip(a.len() as int + 1) =~= b);
    assert forall|j: int| -1 < j < b.len() implies #[trigger] b[j] != ')' by {
        assert(b.contains(b[j]));
    }
    crate::text::lemma_last_place_is(b, ')', -1);
}

/// The file that is shown is the one that was asked for.
pub proof fn law_file_revealed(path: Seq<char>)
    ensures
        reveal_args(path, Platform::MacOs) matches Some(a) && a.len() == 2 && a.last() == path,
        reveal_args(path, Platform::Windows) matches Some(a) && a.len() == 1 && ends(a[0], path),
        reveal_args(path, Platform::Other) is None,
{
    let a = "/select,"@ + path;
    assert(a.skip(a.len() - path.len()) =~= path);
}

} // verus!
