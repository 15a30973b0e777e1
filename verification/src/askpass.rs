//! Typing saved SSH passwords, safely. ssh runs Ronnie as its SSH_ASKPASS helper; that helper doesn't
//! read the keychain itself (any program could run it and get the passwords): it asks the Ronnie window
//! over a private local socket. The window answers only when the asking process is the child of an ssh
//! it started itself in one of its panes — so a jump host's ssh (a grandchild) doesn't get the target's
//! password — and only once per connection: after a wrong password, ssh asks again and the user types.

use crate::shortcut::Platform;
use crate::text::{
    drop_back, from_chars, has_text, last_place, lowercase, number, opt_view, parse_number,
    replaced, same_str, slice, split_words, to_chars, to_lowercase, trim_back, words, Class,
};
use std::collections::{HashMap, HashSet};
use vstd::prelude::*;

verus! {

broadcast use vstd::std_specs::hash::group_hash_axioms;

/// The socket that helpers connect to, once the window listens.
#[derive(Debug)]
pub struct Socket {
    pub path: Option<String>,
}

/// Where the socket is, once the window listens (passed to ssh in its environment).
pub fn socket_path(socket: &Socket) -> (r: Option<&str>)
    ensures
        crate::paths::str_view(r) == opt_view(socket.path),
{
    match &socket.path {
        Some(p) => Some(p.as_str()),
        None => None,
    }
}

/// The name of the socket of a process.
pub open spec fn socket_name(pid: u32) -> Seq<char> {
    "ronnie-askpass-"@ + crate::text::decimal(pid as nat) + ".sock"@
}

/// Where the socket goes: a short path (socket paths are limited to about 100
/// bytes) in a directory that only the user can read.
pub open spec fn picked_path(
    pid: u32,
    runtime_dir: Option<Seq<char>>,
    temp_dir: Seq<char>,
    config_dir: Option<Seq<char>>,
    platform: Platform,
) -> Option<Seq<char>> {
    let name = socket_name(pid);
    match runtime_dir {
        Some(d) => Some(crate::paths::below(d, name, platform)),
        None => if platform is MacOs {
            Some(crate::paths::below(temp_dir, name, platform))
        } else {
            match config_dir {
                Some(d) => Some(crate::paths::below(d, name, platform)),
                None => None,
            }
        },
    }
}

/// Picks the path of the socket: in the runtime directory where there is one; on
/// macOS in the per-user temporary directory, which is private; else in the
/// config directory.
pub fn pick_path(
    pid: u32,
    runtime_dir: Option<&str>,
    temp_dir: &str,
    config_dir: Option<&str>,
    platform: Platform,
) -> (r: Option<String>)
    ensures
        opt_view(r) == picked_path(
            pid,
            crate::paths::str_view(runtime_dir),
            temp_dir@,
            crate::paths::str_view(config_dir),
            platform,
        ),
{
    let mut name = String::new();
    name.push_str("ronnie-askpass-");
    crate::text::push_numeral(&mut name, pid as u64, 10);
    name.push_str(".sock");
    assert(name@ =~= socket_name(pid));
    match runtime_dir {
        Some(d) => {
            return Some(crate::paths::join_path(d, name.as_str(), platform));
        },
        None => {},
    }
    match platform {
        Platform::MacOs => Some(crate::paths::join_path(temp_dir, name.as_str(), platform)),
        _ => match config_dir {
            Some(d) => Some(crate::paths::join_path(d, name.as_str(), platform)),
            None => None,
        },
    }
}

/// A question from ssh (password, new host key...) for the user, in the window.
#[derive(Debug)]
pub struct Prompt {
    /// The server asking (the text itself comes from the server and could pretend anything).
    pub host: String,
    pub text: String,
    /// Typed text should be hidden (a password, not a yes/no).
    pub secret: bool,
}

#[verifier::ext_equal]
pub struct PromptModel {
    pub host: Seq<char>,
    pub text: Seq<char>,
    pub secret: bool,
}

impl View for Prompt {
    type V = PromptModel;

    open spec fn view(&self) -> PromptModel {
        PromptModel { host: self.host@, text: self.text@, secret: self.secret }
    }
}

/// The window's side: which ssh processes it started.
pub struct Server {
    /// ssh processes started by this window, and the host whose password they may get.
    pub allowed: HashMap<u32, u128>,
    /// Those that already got it once.
    pub answered: HashSet<u32>,
    /// Those without a terminal (SFTP): their other prompts are asked in the window.
    pub interactive: HashSet<u32>,
    /// Those whose question the user cancelled: not asked again (ssh retries a few times).
    pub refused: HashSet<u32>,
    /// Host names, to show which server asks.
    pub names: HashMap<u128, String>,
    /// Whether the window takes questions.
    pub prompter: bool,
}

#[verifier::ext_equal]
pub struct ServerModel {
    pub allowed: Map<u32, u128>,
    pub answered: Set<u32>,
    pub interactive: Set<u32>,
    pub refused: Set<u32>,
    pub names: Map<u128, Seq<char>>,
    pub prompter: bool,
}

impl View for Server {
    type V = ServerModel;

    open spec fn view(&self) -> ServerModel {
        ServerModel {
            allowed: self.allowed@,
            answered: self.answered@,
            interactive: self.interactive@,
            refused: self.refused@,
            names: self.names@.map_values(|s: String| s@),
            prompter: self.prompter,
        }
    }
}

impl ServerModel {
    /// A process that may get a password. A new process (possibly reusing an old
    /// id) gets its own single try.
    pub open spec fn allow(self, pid: u32, host: u128) -> ServerModel {
        ServerModel {
            allowed: self.allowed.insert(pid, host),
            answered: if self.allowed.contains_key(pid) && self.allowed[pid] == host {
                self.answered
            } else {
                self.answered.remove(pid)
            },
            ..self
        }
    }

    /// A process without a terminal, whose other prompts are asked in the window.
    pub open spec fn allow_interactive(self, pid: u32, host: u128, name: Seq<char>) -> ServerModel {
        let s = self.allow(pid, host);
        ServerModel {
            interactive: s.interactive.insert(pid),
            refused: s.refused.remove(pid),
            names: s.names.insert(host, name),
            ..s
        }
    }

    /// Whether the asking process is a child of an ssh that this window started.
    pub open spec fn knows(self, ssh: Option<u32>) -> bool {
        ssh is Some && self.allowed.contains_key(ssh->0)
    }

    /// Whether a prompt gets the automatic try: the first password prompt of a
    /// connection. `lower` is the prompt in lower case.
    pub open spec fn first_try(self, ssh: u32, lower: Seq<char>) -> bool {
        has_text(lower, "password"@) && !has_text(lower, "passphrase"@) && !self.answered.contains(
            ssh,
        )
    }
}

/// What the window does about a prompt.
#[derive(Debug)]
pub struct Decision {
    /// The ssh process that asks.
    pub ssh: u32,
    /// The host whose saved password is the answer, if there is one.
    pub password_of: Option<u128>,
    /// The question to ask in the window, where no saved password answers.
    pub ask: Option<Prompt>,
}

#[verifier::ext_equal]
pub struct DecisionModel {
    pub ssh: u32,
    pub password_of: Option<u128>,
    pub ask: Option<PromptModel>,
}

impl View for Decision {
    type V = DecisionModel;

    open spec fn view(&self) -> DecisionModel {
        DecisionModel {
            ssh: self.ssh,
            password_of: self.password_of,
            ask: match self.ask {
                Some(p) => Some(p@),
                None => None,
            },
        }
    }
}

/// Whether a character may be shown: neither a control nor one that changes the
/// direction of text.
pub open spec fn showable(c: char) -> bool {
    let n = c as u32;
    &&& !(n <= 0x1f || 0x7f <= n <= 0x9f)
    &&& !(0x202a <= n <= 0x202e || 0x2066 <= n <= 0x2069)
}

/// The most characters of a prompt that are shown.
pub const MAX_PROMPT: usize = 500;

/// What is shown of a prompt: plain text, and not endless.
pub open spec fn shown_prompt(s: Seq<char>) -> Seq<char> {
    let t = s.filter(|c: char| showable(c));
    if t.len() <= MAX_PROMPT {
        t
    } else {
        t.take(MAX_PROMPT as int)
    }
}

/// Whether a prompt asks for yes or no rather than for a secret. `lower` is the
/// prompt in lower case.
pub open spec fn asks_yes_no(lower: Seq<char>) -> bool {
    has_text(lower, "yes/no"@)
}

/// The server after a prompt of a known process, and what to do. `lower` is the
/// prompt in lower case.
pub open spec fn decided(
    s: ServerModel,
    ssh: u32,
    prompt: Seq<char>,
    lower: Seq<char>,
) -> (ServerModel, DecisionModel) {
    let host = s.allowed[ssh];
    let first = s.first_try(ssh, lower);
    (
        ServerModel {
            answered: if first {
                s.answered.insert(ssh)
            } else {
                s.answered
            },
            ..s
        },
        DecisionModel {
            ssh,
            password_of: if first {
                Some(host)
            } else {
                None
            },
            ask: if s.prompter && s.interactive.contains(ssh) && !s.refused.contains(ssh) {
                Some(
                    PromptModel {
                        host: if s.names.contains_key(host) {
                            s.names[host]
                        } else {
                            Seq::empty()
                        },
                        text: shown_prompt(prompt),
                        secret: !asks_yes_no(lower),
                    },
                )
            } else {
                None
            },
        },
    )
}

/// Makes a prompt fit to be shown.
pub fn cleaned(prompt: &str) -> (r: String)
    ensures
        r@ == shown_prompt(prompt@),
{
    let v = to_chars(prompt);
    let mut r: Vec<char> = Vec::new();
    let mut i: usize = 0;
    let ghost p = |c: char| showable(c);
    proof {
        reveal(Seq::filter);
        assert(v@.take(0) =~= Seq::empty());
        assert(r@ =~= v@.take(0).filter(p));
    }
    while i < v.len()
        invariant
            i <= v@.len(),
            p == (|c: char| showable(c)),
            r@ == v@.take(i as int).filter(p),
        decreases v.len() - i,
    {
        proof {
            reveal(Seq::filter);
            assert(v@.take(i + 1).drop_last() =~= v@.take(i as int));
        }
        let c = v[i];
        let n = c as u32;
        let control = n <= 0x1f || (0x7f <= n && n <= 0x9f);
        let turns = (0x202a <= n && n <= 0x202e) || (0x2066 <= n && n <= 0x2069);
        if !control && !turns {
            r.push(c);
        }
        i += 1;
    }
    assert(v@.take(i as int) =~= v@);
    if r.len() > MAX_PROMPT {
        let cut = slice(&r, 0, MAX_PROMPT);
        assert(cut@ =~= r@.take(MAX_PROMPT as int));
        return from_chars(&cut);
    }
    from_chars(&r)
}

fn contains(text: &Vec<char>, word: &str) -> (r: bool)
    ensures
        r == has_text(text@, word@),
{
    crate::text::contains_text(text, &to_chars(word))
}

impl Server {
    /// A window that has started no ssh yet.
    pub fn new() -> (r: Server)
        ensures
            r@ == (ServerModel {
                allowed: Map::empty(),
                answered: Set::empty(),
                interactive: Set::empty(),
                refused: Set::empty(),
                names: Map::empty(),
                prompter: false,
            }),
            r@ == ServerModel::blank(),
    {
        let r = Server {
            allowed: HashMap::new(),
            answered: HashSet::new(),
            interactive: HashSet::new(),
            refused: HashSet::new(),
            names: HashMap::new(),
            prompter: false,
        };
        assert(r@.names =~= Map::empty());
        r
    }

    /// Questions from ssh processes without a terminal are asked from now on.
    pub fn set_prompter(&mut self)
        ensures
            final(self)@ == (ServerModel { prompter: true, ..old(self)@ }),
            final(self)@ == old(self)@.with_prompter(),
    {
        self.prompter = true;
    }

    /// `ssh_pid` (started in a pane) may get the saved password of `host`.
    pub fn allow(&mut self, ssh_pid: u32, host: u128)
        ensures
            final(self)@ == old(self)@.allow(ssh_pid, host),
    {
        let same = match self.allowed.get(&ssh_pid) {
            Some(h) => *h == host,
            None => false,
        };
        self.allowed.insert(ssh_pid, host);
        if !same {
            self.answered.remove(&ssh_pid);
        }
    }

    /// `ssh_pid` (SFTP, no terminal) may get the saved password of `host`, and its other prompts are
    /// asked in the window.
    pub fn allow_interactive(&mut self, ssh_pid: u32, host: u128, name: &str)
        ensures
            final(self)@ == old(self)@.allow_interactive(ssh_pid, host, name@),
    {
        self.allow(ssh_pid, host);
        self.interactive.insert(ssh_pid);
        self.refused.remove(&ssh_pid);
        let ghost before = self.names@;
        self.names.insert(host, name.to_owned());
        assert(self@.names =~= before.map_values(|s: String| s@).insert(host, name@));
    }

    /// Whether the process that asks is the child of an ssh that this window
    /// started; checked before anything is read from it.
    pub fn knows(&self, ssh: Option<u32>) -> (r: bool)
        ensures
            r == self@.knows(ssh),
    {
        match ssh {
            Some(pid) => self.allowed.contains_key(&pid),
            None => false,
        }
    }

    /// Decides about a prompt; `None` for a process that this window did not start.
    pub fn answer(&mut self, ssh: Option<u32>, prompt: &str) -> (r: Option<Decision>)
        ensures
            if old(self)@.knows(ssh) {
                let (after, d) = decided(old(self)@, ssh->0, prompt@, lowercase(prompt@));
                r is Some && r->0@ == d && final(self)@ == after
            } else {
                r is None && final(self)@ == old(self)@
            },
            crate::app::opt(r) == old(self)@.decision(ssh, prompt@, lowercase(prompt@)),
            final(self)@ == old(self)@.asked(ssh, prompt@, lowercase(prompt@)),
    {
        let lower = to_lowercase(prompt);
        self.answer_lowered(ssh, prompt, lower.as_str())
    }

    /// `answer`, given the prompt in lower case.
    pub fn answer_lowered(&mut self, ssh: Option<u32>, prompt: &str, lower: &str) -> (r: Option<
        Decision,
    >)
        ensures
            if old(self)@.knows(ssh) {
                let (after, d) = decided(old(self)@, ssh->0, prompt@, lower@);
                r is Some && r->0@ == d && final(self)@ == after
            } else {
                r is None && final(self)@ == old(self)@
            },
            crate::app::opt(r) == old(self)@.decision(ssh, prompt@, lower@),
            final(self)@ == old(self)@.asked(ssh, prompt@, lower@),
    {
        let pid: u32 = match ssh {
            Some(pid) => pid,
            None => {
                return None;
            },
        };
        let host: u128 = match self.allowed.get(&pid) {
            Some(h) => *h,
            None => {
                return None;
            },
        };
        let l = to_chars(lower);
        let first = contains(&l, "password") && !contains(&l, "passphrase")
            && !self.answered.contains(&pid);
        if first {
            self.answered.insert(pid);
        }
        let name = match self.names.get(&host) {
            Some(n) => n.clone(),
            None => {
                let e = String::new();
                assert(e@ =~= Seq::empty());
                e
            },
        };
        let ask = if self.prompter && self.interactive.contains(&pid) && !self.refused.contains(
            &pid,
        ) {
            Some(Prompt { host: name, text: cleaned(prompt), secret: !contains(&l, "yes/no") })
        } else {
            None
        };
        Some(
            Decision {
                ssh: pid,
                password_of: if first {
                    Some(host)
                } else {
                    None
                },
                ask,
            },
        )
    }

    /// Notes that the user cancelled a question: it is not asked again.
    pub fn refuse(&mut self, ssh: u32)
        ensures
            final(self)@ == (ServerModel { refused: old(self)@.refused.insert(ssh), ..old(self)@ }),
            final(self)@ == old(self)@.refusing(ssh),
    {
        self.refused.insert(ssh);
    }
}

/// A process that the window did not start gets nothing, and after a prompt that
/// got the automatic try no prompt of that process gets it again.
pub proof fn law_one_automatic_try(
    s: ServerModel,
    ssh: u32,
    prompt: Seq<char>,
    lower: Seq<char>,
    next: Seq<char>,
    next_lower: Seq<char>,
)
    requires
        s.knows(Some(ssh)),
        decided(s, ssh, prompt, lower).1.password_of is Some,
    ensures
        decided(decided(s, ssh, prompt, lower).0, ssh, next, next_lower).1.password_of is None,
{
}

/// Allowing the same process for the same host again gives it no second try; a
/// process that reuses an old id for another host gets its own.
pub proof fn law_allow_again(s: ServerModel, ssh: u32, host: u128, other: u128)
    requires
        host != other,
        s.allowed.contains_key(ssh),
        s.allowed[ssh] == host,
    ensures
        s.allow(ssh, host).answered == s.answered,
        !s.allow(ssh, other).answered.contains(ssh),
{
}

/// A question that was cancelled is not asked again, until the process is
/// allowed anew.
pub proof fn law_refused_once(
    s: ServerModel,
    ssh: u32,
    prompt: Seq<char>,
    lower: Seq<char>,
    host: u128,
    name: Seq<char>,
)
    ensures
        decided(
            (ServerModel { refused: s.refused.insert(ssh), ..s }),
            ssh,
            prompt,
            lower,
        ).1.ask is None,
        !s.allow_interactive(ssh, host, name).refused.contains(ssh),
{
}

/// The prompt on a line that a helper sent, without the end of the line.
pub fn prompt_of(line: &str) -> (r: String)
    ensures
        r@ == drop_back(line@, Class::Eol),
        r@ == asked_on(line@),
{
    from_chars(&trim_back(&to_chars(line), Class::Eol))
}

/// What the window writes back to the helper.
pub open spec fn reply_text(answer: Option<Seq<char>>) -> Seq<char> {
    match answer {
        Some(a) => "OK\n"@ + a + seq!['\n'],
        None => "NO\n"@,
    }
}

/// Writes the answer for the helper: "OK\n<password>\n" or "NO\n".
pub fn reply(answer: &Option<String>) -> (r: String)
    ensures
        r@ == reply_text(opt_view(*answer)),
{
    let mut r = String::new();
    match answer {
        Some(a) => {
            r.push_str("OK\n");
            r.push_str(a.as_str());
            r.push('\n');
        },
        None => r.push_str("NO\n"),
    }
    assert(r@ =~= reply_text(opt_view(*answer)));
    r
}

/// What the helper sends: the prompt on one line.
pub fn request_line(prompt: &str) -> (r: String)
    ensures
        r@ == replaced(prompt@, '\n', ' ').push('\n'),
        r@ == asking_line(prompt@),
{
    let mut r = from_chars(&crate::text::replace_char(&to_chars(prompt), '\n', ' '));
    r.push('\n');
    r
}

/// The answer in the two lines that the helper reads back.
pub open spec fn answer_in(status: Seq<char>, password: Seq<char>) -> Option<Seq<char>> {
    if drop_back(status, Class::Space) == "OK"@ {
        Some(drop_back(password, Class::Eol))
    } else {
        None
    }
}

/// Reads the window's answer. None when it has no answer (then ask on the terminal).
pub fn ask_window(status: &str, password: &str) -> (r: Option<String>)
    ensures
        opt_view(r) == answer_in(status@, password@),
{
    let s = from_chars(&trim_back(&to_chars(status), Class::Space));
    if !same_str(s.as_str(), "OK") {
        return None;
    }
    Some(from_chars(&trim_back(&to_chars(password), Class::Eol)))
}

/// A password without a line ending arrives as it was: the helper reads from the
/// two lines of the reply what the window answered.
pub proof fn law_answer_arrives(answer: Seq<char>)
    requires
        answer.len() > 0 ==> answer.last() != '\n' && answer.last() != '\r',
    ensures
        reply_text(Some(answer)) == "OK\n"@ + answer.push('\n'),
        answer_in("OK\n"@, answer.push('\n')) == Some(answer),
        answer_in("NO\n"@, Seq::empty()) is None,
{
    reveal_strlit("OK\n");
    reveal_strlit("NO\n");
    reveal_strlit("OK");
    assert(reply_text(Some(answer)) =~= "OK\n"@ + answer.push('\n'));
    let ok = "OK\n"@;
    assert(ok.drop_last() =~= "OK"@);
    assert(drop_back(ok, Class::Space) == drop_back("OK"@, Class::Space));
    assert(drop_back("OK"@, Class::Space) == "OK"@);
    let line = answer.push('\n');
    assert(line.drop_last() =~= answer);
    assert(drop_back(line, Class::Eol) == drop_back(answer, Class::Eol));
    let no = "NO\n"@;
    assert(no.drop_last() =~= seq!['N', 'O']);
    assert(drop_back(no, Class::Space) == drop_back(seq!['N', 'O'], Class::Space));
    assert(drop_back(seq!['N', 'O'], Class::Space) == seq!['N', 'O']);
    assert(seq!['N', 'O'][0] != "OK"@[0]);
}

/// The parent in a line of /proc/<pid>/stat: "pid (comm) state ppid ...", where
/// comm may hold spaces and parentheses.
pub open spec fn parent_in(stat: Seq<char>) -> Option<nat> {
    let n = last_place(stat, ')');
    if n < 0 {
        None
    } else {
        let w = words(stat.skip(n + 1));
        if w.len() < 2 {
            None
        } else {
            number(w[1], 10, 0xffff_ffff)
        }
    }
}

/// Reads the parent of a process in its line of /proc.
pub fn parent_pid(stat: &str) -> (r: Option<u32>)
    ensures
        match r {
            Some(pid) => parent_in(stat@) == Some(pid as nat),
            None => parent_in(stat@) is None,
        },
{
    let v = to_chars(stat);
    let n = crate::text::find_last(&v, ')');
    if n >= v.len() {
        return None;
    }
    let rest = slice(&v, n + 1, v.len());
    assert(rest@ =~= v@.skip(n + 1));
    let w = split_words(&rest);
    assert(crate::text::char_views(w@).len() == w@.len());
    if w.len() < 2 {
        return None;
    }
    assert(crate::text::char_views(w@)[1] == w@[1]@);
    parse_number(&w[1], 10, 0xffff_ffff)
}

impl ServerModel {
    /// A server that knows no process.
    pub open spec fn blank() -> ServerModel {
        ServerModel {
            allowed: Map::empty(),
            answered: Set::empty(),
            interactive: Set::empty(),
            refused: Set::empty(),
            names: Map::empty(),
            prompter: false,
        }
    }

    /// With a window that takes questions.
    pub open spec fn with_prompter(self) -> ServerModel {
        ServerModel { prompter: true, ..self }
    }

    /// With a question that was cancelled.
    pub open spec fn refusing(self, ssh: u32) -> ServerModel {
        ServerModel { refused: self.refused.insert(ssh), ..self }
    }

    /// The decision on a question, if the process is known.
    pub open spec fn decision(self, ssh: Option<u32>, prompt: Seq<char>, lower: Seq<char>) -> Option<
        DecisionModel,
    > {
        if self.knows(ssh) {
            Some(decided(self, ssh->0, prompt, lower).1)
        } else {
            None
        }
    }

    /// After a question.
    pub open spec fn asked(self, ssh: Option<u32>, prompt: Seq<char>, lower: Seq<char>) -> ServerModel {
        if self.knows(ssh) {
            decided(self, ssh->0, prompt, lower).0
        } else {
            self
        }
    }
}

/// The question on a line.
pub open spec fn asked_on(line: Seq<char>) -> Seq<char> {
    drop_back(line, Class::Eol)
}

/// The line that asks a question.
pub open spec fn asking_line(prompt: Seq<char>) -> Seq<char> {
    replaced(prompt, '\n', ' ').push('\n')
}

} // verus!
