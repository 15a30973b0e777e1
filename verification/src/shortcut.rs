//! Keyboard shortcuts, stored as text, and the actions they can be bound to.

use crate::model::Duplicate;
use crate::strings::Strings;
use crate::text::{
    ascii_lowered, char_views, ends, ends_with, from_chars, join_with, joined, same_str, split,
    split_at, to_ascii_lowercase, to_chars, trim, trimmed, views,
};
use vstd::prelude::*;

verus! {

/// The kinds of system the interface adapts to.
#[derive(Clone, Copy, PartialEq, Eq, Structural, Debug)]
pub enum Platform {
    MacOs,
    Windows,
    Other,
}

/// The modifier keys held down.
#[derive(Clone, Copy, PartialEq, Eq, Structural, Debug)]
pub struct Modifiers {
    pub alt: bool,
    pub ctrl: bool,
    pub shift: bool,
    /// The Cmd key of a Mac.
    pub mac_cmd: bool,
    /// The usual command key: Cmd on macOS, Ctrl elsewhere.
    pub command: bool,
}

impl Modifiers {
    /// No modifier.
    pub open spec fn none() -> Modifiers {
        Modifiers { alt: false, ctrl: false, shift: false, mac_cmd: false, command: false }
    }
}

/// A combination of keys. The key is known by its canonical name.
#[derive(Debug)]
pub struct KeyboardShortcut {
    pub modifiers: Modifiers,
    pub logical_key: String,
}

impl View for KeyboardShortcut {
    type V = (Modifiers, Seq<char>);

    open spec fn view(&self) -> (Modifiers, Seq<char>) {
        (self.modifiers, self.logical_key@)
    }
}

/// The canonical name of the key that a text names, if it names one.
pub uninterp spec fn key_from_name(s: Seq<char>) -> Option<Seq<char>>;

/// The symbol shown for the key that a text names, or its name where it has none.
pub uninterp spec fn symbol_of_key(s: Seq<char>) -> Option<Seq<char>>;

/// Whether a character is an ASCII letter or digit.
pub open spec fn alphanumeric(c: char) -> bool {
    ('0' <= c <= '9') || ('A' <= c <= 'Z') || ('a' <= c <= 'z')
}

/// Whether a text is made of ASCII letters and digits, and not empty.
pub open spec fn plain(s: Seq<char>) -> bool {
    s.len() > 0 && forall|i: int| 0 <= i < s.len() ==> alphanumeric(#[trigger] s[i])
}

/// `egui::Key::from_name` and `egui::Key::name`: the canonical name of the key
/// that a text names. Which texts name a key depends on the text alone; a
/// canonical name is made of ASCII letters and digits, and names its own key.
#[verifier::external_body]
fn key_named(s: &str) -> (r: Option<String>)
    ensures
        crate::text::opt_view(r) == key_from_name(s@),
        r matches Some(n) ==> plain(n@) && key_from_name(n@) == Some(n@),
{
    egui::Key::from_name(s).map(|k| k.name().to_owned())
}

/// `egui::Key::symbol_or_name`: what is shown for the key that a text names.
#[verifier::external_body]
fn key_symbol(s: &str) -> (r: Option<String>)
    ensures
        crate::text::opt_view(r) == symbol_of_key(s@),
        r is Some == key_from_name(s@) is Some,
{
    egui::Key::from_name(s).map(|k| k.symbol_or_name().to_owned())
}

/// A keyboard shortcut, stored as text: "Cmd+K", "Ctrl+Shift+K", "Alt+F2"...
#[derive(Debug)]
pub struct Shortcut(pub String);

impl View for Shortcut {
    type V = Seq<char>;

    open spec fn view(&self) -> Seq<char> {
        self.0@
    }
}

impl Duplicate for Shortcut {
    fn duplicate(&self) -> (r: Self) {
        Shortcut(self.0.clone())
    }
}

/// What a part of a shortcut before its key adds to the modifiers.
pub open spec fn modifier(part: Seq<char>, m: Modifiers) -> Option<Modifiers> {
    let l = ascii_lowered(part);
    if l == "cmd"@ || l == "command"@ || l == "super"@ {
        Some(Modifiers { mac_cmd: true, ..m })
    } else if l == "ctrl"@ || l == "control"@ {
        Some(Modifiers { ctrl: true, ..m })
    } else if l == "alt"@ || l == "option"@ {
        Some(Modifiers { alt: true, ..m })
    } else if l == "shift"@ {
        Some(Modifiers { shift: true, ..m })
    } else {
        None
    }
}

/// The modifiers that the parts before the key stand for.
pub open spec fn modifiers_of(parts: Seq<Seq<char>>) -> Option<Modifiers>
    decreases parts.len(),
{
    if parts.len() == 0 {
        Some(Modifiers::none())
    } else {
        match modifiers_of(parts.drop_last()) {
            Some(m) => modifier(parts.last(), m),
            None => None,
        }
    }
}

/// The parts of a shortcut between plus signs, without the spaces around them.
/// A shortcut that ends with two plus signs has the plus key.
pub open spec fn parts_of(s: Seq<char>) -> Seq<Seq<char>> {
    let parts = split(s, '+').map_values(|p: Seq<char>| trimmed(p));
    if ends(s, "++"@) {
        let n = if parts.len() >= 2 {
            parts.len() - 2
        } else {
            0
        };
        parts.take(n).push("+"@)
    } else {
        parts
    }
}

/// The modifiers with the usual command key of the platform.
pub open spec fn with_command(m: Modifiers, platform: Platform) -> Modifiers {
    Modifiers {
        command: if platform is MacOs {
            m.mac_cmd
        } else {
            m.ctrl
        },
        ..m
    }
}

/// The combination that a stored shortcut stands for, given the canonical name of the
/// key that its last part names, if it names one.
pub open spec fn parsed_with(s: Seq<char>, key: Option<Seq<char>>, platform: Platform) -> Option<
    (Modifiers, Seq<char>),
> {
    match (modifiers_of(parts_of(s).drop_last()), key) {
        (Some(m), Some(key)) => Some((with_command(m, platform), key)),
        _ => None,
    }
}

/// The combination that a stored shortcut stands for.
pub open spec fn parsed(s: Seq<char>, platform: Platform) -> Option<(Modifiers, Seq<char>)> {
    parsed_with(s, key_from_name(parts_of(s).last()), platform)
}

/// The names of the modifiers held, in the order in which they are written.
pub open spec fn modifier_names(m: Modifiers) -> Seq<Seq<char>> {
    (if m.mac_cmd {
        seq!["Cmd"@]
    } else {
        Seq::empty()
    }) + (if m.ctrl {
        seq!["Ctrl"@]
    } else {
        Seq::empty()
    }) + (if m.alt {
        seq!["Alt"@]
    } else {
        Seq::empty()
    }) + (if m.shift {
        seq!["Shift"@]
    } else {
        Seq::empty()
    })
}

/// How a combination is stored.
pub open spec fn typed_text(m: Modifiers, key: Seq<char>) -> Seq<char> {
    joined(modifier_names(m).push(key), "+"@)
}

/// The symbols of the modifiers held, in the order in which they are shown.
pub open spec fn modifier_symbols(m: Modifiers) -> Seq<Seq<char>> {
    (if m.ctrl {
        seq!["⌃"@]
    } else {
        Seq::empty()
    }) + (if m.alt {
        seq!["⌥"@]
    } else {
        Seq::empty()
    }) + (if m.shift {
        seq!["⇧"@]
    } else {
        Seq::empty()
    }) + (if m.mac_cmd {
        seq!["⌘"@]
    } else {
        Seq::empty()
    })
}

/// What is shown for a combination on macOS: the keys apart from one another.
pub open spec fn mac_label(m: Modifiers, symbol: Seq<char>) -> Seq<char> {
    joined(modifier_symbols(m).push(symbol), " "@)
}

/// What is shown for a stored shortcut.
pub open spec fn label_of(s: Seq<char>, platform: Platform) -> Seq<char> {
    match (platform, parsed(s, platform)) {
        (Platform::MacOs, Some((m, key))) => mac_label(m, symbol_of_key(key)->0),
        _ => s,
    }
}

/// A key with the usual modifiers of the application.
pub open spec fn command_text(key: char, platform: Platform) -> Seq<char> {
    (if platform is MacOs {
        "Cmd+"@
    } else {
        "Ctrl+Shift+"@
    }).push(key)
}

fn push_if(on: bool, parts: &mut Vec<String>, name: &str)
    ensures
        views(final(parts)@) == views(old(parts)@) + (if on {
            seq![name@]
        } else {
            Seq::empty()
        }),
{
    if on {
        parts.push(name.to_owned());
    }
    assert(views(parts@) =~= views(old(parts)@) + (if on {
        seq![name@]
    } else {
        Seq::empty()
    }));
}

fn add_modifier(part: &Vec<char>, m: Modifiers) -> (r: Option<Modifiers>)
    ensures
        r == modifier(part@, m),
{
    let lower = from_chars(&to_ascii_lowercase(part));
    let l = lower.as_str();
    if same_str(l, "cmd") || same_str(l, "command") || same_str(l, "super") {
        Some(Modifiers { mac_cmd: true, ..m })
    } else if same_str(l, "ctrl") || same_str(l, "control") {
        Some(Modifiers { ctrl: true, ..m })
    } else if same_str(l, "alt") || same_str(l, "option") {
        Some(Modifiers { alt: true, ..m })
    } else if same_str(l, "shift") {
        Some(Modifiers { shift: true, ..m })
    } else {
        None
    }
}

/// A list of parts, each without the spaces around it.
fn trim_all(parts: &Vec<Vec<char>>) -> (r: Vec<Vec<char>>)
    ensures
        char_views(r@) == char_views(parts@).map_values(|p: Seq<char>| trimmed(p)),
{
    let mut r: Vec<Vec<char>> = Vec::new();
    let mut i: usize = 0;
    while i < parts.len()
        invariant
            i <= parts@.len(),
            r@.len() == i,
            forall|j: int| 0 <= j < i ==> (#[trigger] r@[j])@ == trimmed(parts@[j]@),
        decreases parts.len() - i,
    {
        r.push(trim(&parts[i]));
        i += 1;
    }
    assert(char_views(r@) =~= char_views(parts@).map_values(|p: Seq<char>| trimmed(p)));
    r
}

impl Shortcut {
    /// `key` with the app's usual modifier: Cmd on macOS, Ctrl+Shift elsewhere (plain Ctrl keys belong
    /// to the shell).
    pub fn command(key: char, platform: Platform) -> (r: Shortcut)
        ensures
            r@ == command_text(key, platform),
    {
        let mut s = String::new();
        match platform {
            Platform::MacOs => s.push_str("Cmd+"),
            _ => s.push_str("Ctrl+Shift+"),
        }
        s.push(key);
        assert(s@ =~= command_text(key, platform));
        Shortcut(s)
    }

    /// The shortcut `modifiers` + `key` just typed; the key is given by its name.
    pub fn typed(modifiers: Modifiers, key: &str) -> (r: Shortcut)
        ensures
            r@ == typed_text(modifiers, key@),
    {
        let mut parts: Vec<String> = Vec::new();
        push_if(modifiers.mac_cmd, &mut parts, "Cmd");
        push_if(modifiers.ctrl, &mut parts, "Ctrl");
        push_if(modifiers.alt, &mut parts, "Alt");
        push_if(modifiers.shift, &mut parts, "Shift");
        push_if(true, &mut parts, key);
        assert(views(parts@) =~= modifier_names(modifiers).push(key@));
        Shortcut(join_with(&parts, "+"))
    }

    /// The parts of the text: the modifiers, then the key.
    fn parts(&self) -> (r: Vec<Vec<char>>)
        ensures
            char_views(r@) == parts_of(self@),
            r@.len() > 0,
    {
        let text = to_chars(self.0.as_str());
        let mut parts = trim_all(&split_at(&text, '+'));
        proof {
            crate::text::lemma_split_some(self@, '+');
            assert(char_views(parts@).len() == split(self@, '+').len());
        }
        if ends_with(&text, "++") {
            let n: usize = if parts.len() >= 2 {
                parts.len() - 2
            } else {
                0
            };
            let ghost all = char_views(parts@);
            parts.truncate(n);
            assert(char_views(parts@) =~= all.take(n as int));
            let ghost kept = char_views(parts@);
            let plus = to_chars("+");
            parts.push(plus);
            assert(char_views(parts@) =~= kept.push("+"@));
        }
        parts
    }

    /// The part of the text that names the key.
    pub fn key_text(&self) -> (r: String)
        ensures
            r@ == parts_of(self@).last(),
    {
        let parts = self.parts();
        let last = from_chars(&parts[parts.len() - 1]);
        assert(last@ == char_views(parts@).last());
        last
    }

    /// The combination that the text stands for, given the canonical name of the key
    /// that `key_text` names, if it names one.
    pub fn parse_with(&self, key: Option<String>, platform: Platform) -> (r: Option<
        KeyboardShortcut,
    >)
        ensures
            match r {
                Some(k) => parsed_with(self@, crate::text::opt_view(key), platform) == Some(k@),
                None => parsed_with(self@, crate::text::opt_view(key), platform) is None,
            },
    {
        let key = match key {
            Some(key) => key,
            None => {
                return None;
            },
        };
        let parts = self.parts();
        let count: usize = parts.len() - 1;
        let mut modifiers = Modifiers {
            alt: false,
            ctrl: false,
            shift: false,
            mac_cmd: false,
            command: false,
        };
        let mut i: usize = 0;
        let ghost before = parts_of(self@).drop_last();
        assert(before.take(0) =~= Seq::empty());
        while i < count
            invariant
                i <= count,
                count == parts@.len() - 1,
                char_views(parts@) == parts_of(self@),
                before == parts_of(self@).drop_last(),
                modifiers_of(before.take(i as int)) == Some(modifiers),
            decreases count - i,
        {
            proof {
                assert(before.take(i + 1).drop_last() =~= before.take(i as int));
                assert(before.take(i + 1).last() == char_views(parts@)[i as int]);
            }
            match add_modifier(&parts[i], modifiers) {
                Some(m) => {
                    modifiers = m;
                },
                None => {
                    proof {
                        lemma_bad_modifier(before, i + 1);
                    }
                    return None;
                },
            }
            i += 1;
        }
        assert(before.take(i as int) =~= before);
        let command = match platform {
            Platform::MacOs => modifiers.mac_cmd,
            _ => modifiers.ctrl,
        };
        Some(KeyboardShortcut { modifiers: Modifiers { command, ..modifiers }, logical_key: key })
    }

    /// The combination that the text stands for, if it stands for one.
    pub fn parse(&self, platform: Platform) -> (r: Option<KeyboardShortcut>)
        ensures
            match r {
                Some(k) => parsed(self@, platform) == Some(k@) && plain(k.logical_key@)
                    && key_from_name(k.logical_key@) == Some(k.logical_key@),
                None => parsed(self@, platform) is None,
            },
    {
        self.parse_with(key_named(self.key_text().as_str()), platform)
    }

    /// As shown in the interface: "⌘ K" on macOS, "Ctrl+Shift+K" elsewhere.
    pub fn label(&self, platform: Platform) -> (r: String)
        ensures
            r@ == label_of(self@, platform),
    {
        match platform {
            Platform::MacOs => {},
            _ => {
                return self.0.clone();
            },
        }
        let shortcut = match self.parse(platform) {
            Some(shortcut) => shortcut,
            None => {
                return self.0.clone();
            },
        };
        match key_symbol(shortcut.logical_key.as_str()) {
            Some(symbol) => Shortcut::shown(shortcut.modifiers, symbol.as_str()),
            None => self.0.clone(),
        }
    }

    /// A combination as macOS shows it, the key by its symbol.
    pub fn shown(m: Modifiers, symbol: &str) -> (r: String)
        ensures
            r@ == mac_label(m, symbol@),
    {
        let mut keys: Vec<String> = Vec::new();
        push_if(m.ctrl, &mut keys, "⌃");
        push_if(m.alt, &mut keys, "⌥");
        push_if(m.shift, &mut keys, "⇧");
        push_if(m.mac_cmd, &mut keys, "⌘");
        push_if(true, &mut keys, symbol);
        assert(views(keys@) =~= modifier_symbols(m).push(symbol@));
        join_with(&keys, " ")
    }

    /// Compares two shortcuts as texts.
    pub fn same(&self, other: &Shortcut) -> (r: bool)
        ensures
            r == (self@ == other@),
    {
        same_str(self.0.as_str(), other.0.as_str())
    }
}

/// An unknown modifier spoils the whole shortcut.
proof fn lemma_bad_modifier(parts: Seq<Seq<char>>, n: int)
    requires
        0 <= n <= parts.len(),
        modifiers_of(parts.take(n)) is None,
    ensures
        modifiers_of(parts) is None,
    decreases parts.len() - n,
{
    if n < parts.len() {
        assert(parts.take(n + 1).drop_last() =~= parts.take(n));
        lemma_bad_modifier(parts, n + 1);
    } else {
        assert(parts.take(n) =~= parts);
    }
}

/// Shortcuts the user can change (Settings > Shortcuts).
#[derive(Debug)]
pub struct Shortcuts {
    pub new_tab: Shortcut,
    pub close_pane: Shortcut,
    pub split_right: Shortcut,
    pub split_down: Shortcut,
    pub find_text: Shortcut,
    pub find_commands: Shortcut,
    pub reopen_tab: Shortcut,
    /// Clears the focused pane's screen and scrollback.
    pub clear_pane: Shortcut,
    pub open_settings: Shortcut,
    pub toggle_files: Shortcut,
}

#[verifier::ext_equal]
pub struct ShortcutsModel {
    pub new_tab: Seq<char>,
    pub close_pane: Seq<char>,
    pub split_right: Seq<char>,
    pub split_down: Seq<char>,
    pub find_text: Seq<char>,
    pub find_commands: Seq<char>,
    pub reopen_tab: Seq<char>,
    pub clear_pane: Seq<char>,
    pub open_settings: Seq<char>,
    pub toggle_files: Seq<char>,
}

impl View for Shortcuts {
    type V = ShortcutsModel;

    open spec fn view(&self) -> ShortcutsModel {
        ShortcutsModel {
            new_tab: self.new_tab@,
            close_pane: self.close_pane@,
            split_right: self.split_right@,
            split_down: self.split_down@,
            find_text: self.find_text@,
            find_commands: self.find_commands@,
            reopen_tab: self.reopen_tab@,
            clear_pane: self.clear_pane@,
            open_settings: self.open_settings@,
            toggle_files: self.toggle_files@,
        }
    }
}

impl ShortcutsModel {
    /// The shortcuts of a new user. Those not listed are not bound to any key.
    pub open spec fn defaults(platform: Platform) -> ShortcutsModel {
        ShortcutsModel {
            new_tab: Seq::empty(),
            close_pane: Seq::empty(),
            split_right: Seq::empty(),
            split_down: Seq::empty(),
            find_text: Seq::empty(),
            find_commands: Seq::empty(),
            reopen_tab: Seq::empty(),
            clear_pane: command_text('K', platform),
            open_settings: command_text('P', platform),
            toggle_files: Seq::empty(),
        }
    }

    /// The shortcut of an action.
    pub open spec fn of(self, action: ShortcutAction) -> Seq<char> {
        match action {
            ShortcutAction::NewTab => self.new_tab,
            ShortcutAction::ClosePane => self.close_pane,
            ShortcutAction::SplitRight => self.split_right,
            ShortcutAction::SplitDown => self.split_down,
            ShortcutAction::FindText => self.find_text,
            ShortcutAction::FindCommands => self.find_commands,
            ShortcutAction::ReopenTab => self.reopen_tab,
            ShortcutAction::ClearPane => self.clear_pane,
            ShortcutAction::OpenSettings => self.open_settings,
            ShortcutAction::ToggleFiles => self.toggle_files,
        }
    }

    /// The shortcuts with one action bound to another combination.
    pub open spec fn with(self, action: ShortcutAction, s: Seq<char>) -> ShortcutsModel {
        match action {
            ShortcutAction::NewTab => ShortcutsModel { new_tab: s, ..self },
            ShortcutAction::ClosePane => ShortcutsModel { close_pane: s, ..self },
            ShortcutAction::SplitRight => ShortcutsModel { split_right: s, ..self },
            ShortcutAction::SplitDown => ShortcutsModel { split_down: s, ..self },
            ShortcutAction::FindText => ShortcutsModel { find_text: s, ..self },
            ShortcutAction::FindCommands => ShortcutsModel { find_commands: s, ..self },
            ShortcutAction::ReopenTab => ShortcutsModel { reopen_tab: s, ..self },
            ShortcutAction::ClearPane => ShortcutsModel { clear_pane: s, ..self },
            ShortcutAction::OpenSettings => ShortcutsModel { open_settings: s, ..self },
            ShortcutAction::ToggleFiles => ShortcutsModel { toggle_files: s, ..self },
        }
    }
}

fn unbound() -> (r: Shortcut)
    ensures
        r@ == Seq::<char>::empty(),
{
    Shortcut(String::new())
}

impl Shortcuts {
    /// The shortcuts of a new user.
    pub fn defaults(platform: Platform) -> (r: Shortcuts)
        ensures
            r@ == ShortcutsModel::defaults(platform),
    {
        Shortcuts {
            new_tab: unbound(),
            close_pane: unbound(),
            split_right: unbound(),
            split_down: unbound(),
            find_text: unbound(),
            find_commands: unbound(),
            reopen_tab: unbound(),
            clear_pane: Shortcut::command('K', platform),
            open_settings: Shortcut::command('P', platform),
            toggle_files: unbound(),
        }
    }

    /// Compares two sets of shortcuts.
    pub fn same(&self, other: &Shortcuts) -> (r: bool)
        ensures
            r == (self@ == other@),
    {
        self.new_tab.same(&other.new_tab) && self.close_pane.same(&other.close_pane)
            && self.split_right.same(&other.split_right) && self.split_down.same(&other.split_down)
            && self.find_text.same(&other.find_text) && self.find_commands.same(
            &other.find_commands,
        ) && self.reopen_tab.same(&other.reopen_tab) && self.clear_pane.same(&other.clear_pane)
            && self.open_settings.same(&other.open_settings) && self.toggle_files.same(
            &other.toggle_files,
        )
    }
}

impl Duplicate for Shortcuts {
    fn duplicate(&self) -> (r: Self) {
        Shortcuts {
            new_tab: self.new_tab.duplicate(),
            close_pane: self.close_pane.duplicate(),
            split_right: self.split_right.duplicate(),
            split_down: self.split_down.duplicate(),
            find_text: self.find_text.duplicate(),
            find_commands: self.find_commands.duplicate(),
            reopen_tab: self.reopen_tab.duplicate(),
            clear_pane: self.clear_pane.duplicate(),
            open_settings: self.open_settings.duplicate(),
            toggle_files: self.toggle_files.duplicate(),
        }
    }
}

/// A shortcut that can be changed in the settings.
#[derive(Clone, Copy, PartialEq, Eq, Structural, Debug)]
pub enum ShortcutAction {
    NewTab,
    ClosePane,
    SplitRight,
    SplitDown,
    FindText,
    FindCommands,
    ReopenTab,
    ClearPane,
    OpenSettings,
    ToggleFiles,
}

/// The actions in the order in which they are listed.
pub open spec fn actions() -> Seq<ShortcutAction> {
    seq![
        ShortcutAction::NewTab,
        ShortcutAction::ClosePane,
        ShortcutAction::SplitRight,
        ShortcutAction::SplitDown,
        ShortcutAction::FindText,
        ShortcutAction::FindCommands,
        ShortcutAction::ReopenTab,
        ShortcutAction::ClearPane,
        ShortcutAction::OpenSettings,
        ShortcutAction::ToggleFiles,
    ]
}

impl ShortcutAction {
    /// The actions in the order in which they are listed.
    pub fn all() -> (r: Vec<ShortcutAction>)
        ensures
            r@ == actions(),
    {
        let mut r: Vec<ShortcutAction> = Vec::new();
        r.push(ShortcutAction::NewTab);
        r.push(ShortcutAction::ClosePane);
        r.push(ShortcutAction::SplitRight);
        r.push(ShortcutAction::SplitDown);
        r.push(ShortcutAction::FindText);
        r.push(ShortcutAction::FindCommands);
        r.push(ShortcutAction::ReopenTab);
        r.push(ShortcutAction::ClearPane);
        r.push(ShortcutAction::OpenSettings);
        r.push(ShortcutAction::ToggleFiles);
        assert(r@ =~= actions());
        r
    }

    /// What the settings call the action.
    pub fn label(self, t: &Strings) -> (r: &'static str)
        ensures
            r@ == t.action(self),
    {
        match self {
            ShortcutAction::NewTab => t.shortcut_new_tab,
            ShortcutAction::ClosePane => t.shortcut_close_pane,
            ShortcutAction::SplitRight => t.shortcut_split_right,
            ShortcutAction::SplitDown => t.shortcut_split_down,
            ShortcutAction::FindText => t.shortcut_find_text,
            ShortcutAction::FindCommands => t.history_search,
            ShortcutAction::ReopenTab => t.shortcut_reopen,
            ShortcutAction::ClearPane => t.shortcut_clear_pane,
            ShortcutAction::OpenSettings => t.shortcut_open_settings,
            ShortcutAction::ToggleFiles => t.shortcut_toggle_files,
        }
    }

    /// The action's shortcut.
    pub fn get(self, s: &Shortcuts) -> (r: &Shortcut)
        ensures
            r@ == s@.of(self),
    {
        match self {
            ShortcutAction::NewTab => &s.new_tab,
            ShortcutAction::ClosePane => &s.close_pane,
            ShortcutAction::SplitRight => &s.split_right,
            ShortcutAction::SplitDown => &s.split_down,
            ShortcutAction::FindText => &s.find_text,
            ShortcutAction::FindCommands => &s.find_commands,
            ShortcutAction::ReopenTab => &s.reopen_tab,
            ShortcutAction::ClearPane => &s.clear_pane,
            ShortcutAction::OpenSettings => &s.open_settings,
            ShortcutAction::ToggleFiles => &s.toggle_files,
        }
    }

    /// The action's shortcut, to change it.
    pub fn get_mut(self, s: &mut Shortcuts) -> (r: &mut Shortcut)
        ensures
            r@ == old(s)@.of(self),
            final(s)@ == old(s)@.with(self, final(r)@),
    {
        match self {
            ShortcutAction::NewTab => &mut s.new_tab,
            ShortcutAction::ClosePane => &mut s.close_pane,
            ShortcutAction::SplitRight => &mut s.split_right,
            ShortcutAction::SplitDown => &mut s.split_down,
            ShortcutAction::FindText => &mut s.find_text,
            ShortcutAction::FindCommands => &mut s.find_commands,
            ShortcutAction::ReopenTab => &mut s.reopen_tab,
            ShortcutAction::ClearPane => &mut s.clear_pane,
            ShortcutAction::OpenSettings => &mut s.open_settings,
            ShortcutAction::ToggleFiles => &mut s.toggle_files,
        }
    }
}

/// Binding an action gives it the new shortcut and leaves the others alone.
pub proof fn law_rebind(s: ShortcutsModel, a: ShortcutAction, b: ShortcutAction, text: Seq<char>)
    ensures
        s.with(a, text).of(a) == text,
        a != b ==> s.with(a, text).of(b) == s.of(b),
{
}

/// Trimming a text that neither starts nor ends with white space keeps it.
proof fn lemma_trimmed(s: Seq<char>)
    requires
        s.len() > 0,
        !crate::text::space(s[0]),
        !crate::text::space(s.last()),
    ensures
        trimmed(s) == s,
{
}

/// A plain name holds no plus sign and no white space around it.
proof fn lemma_plain(s: Seq<char>)
    requires
        plain(s),
    ensures
        !s.contains('+'),
        trimmed(s) == s,
        s.last() != '+',
{
    assert(alphanumeric(s[0]));
    assert(alphanumeric(s[s.len() - 1]));
    lemma_trimmed(s);
    if s.contains('+') {
        let i = choose|i: int| 0 <= i < s.len() && s[i] == '+';
        assert(alphanumeric(s[i]));
    }
}

/// Whether the names of modifiers are plain, and what each of them adds.
proof fn lemma_modifier_names()
    ensures
        plain("Cmd"@),
        plain("Ctrl"@),
        plain("Alt"@),
        plain("Shift"@),
        forall|m: Modifiers| #[trigger]
            modifier("Cmd"@, m) == Some(Modifiers { mac_cmd: true, ..m }),
        forall|m: Modifiers| #[trigger]
            modifier("Ctrl"@, m) == Some(Modifiers { ctrl: true, ..m }),
        forall|m: Modifiers| #[trigger]
            modifier("Alt"@, m) == Some(Modifiers { alt: true, ..m }),
        forall|m: Modifiers| #[trigger]
            modifier("Shift"@, m) == Some(Modifiers { shift: true, ..m }),
{
    reveal_strlit("Cmd");
    reveal_strlit("Ctrl");
    reveal_strlit("Alt");
    reveal_strlit("Shift");
    reveal_strlit("cmd");
    reveal_strlit("command");
    reveal_strlit("super");
    reveal_strlit("ctrl");
    reveal_strlit("control");
    reveal_strlit("alt");
    reveal_strlit("option");
    reveal_strlit("shift");
    assert(ascii_lowered("Cmd"@) =~= "cmd"@);
    assert(ascii_lowered("Ctrl"@) =~= "ctrl"@);
    assert("ctrl"@[0] != "cmd"@[0] || "ctrl"@.len() != "cmd"@.len());
    assert("ctrl"@.len() != "command"@.len());
    assert("ctrl"@.len() != "super"@.len());
    assert(ascii_lowered("Alt"@) =~= "alt"@);
    assert("alt"@[0] != "cmd"@[0]);
    assert("alt"@.len() != "command"@.len());
    assert("alt"@.len() != "super"@.len());
    assert("alt"@.len() != "ctrl"@.len());
    assert("alt"@.len() != "control"@.len());
    assert(ascii_lowered("Shift"@) =~= "shift"@);
    assert("shift"@.len() != "cmd"@.len());
    assert("shift"@.len() != "command"@.len());
    assert("shift"@[1] != "super"@[1]);
    assert("shift"@.len() != "ctrl"@.len());
    assert("shift"@.len() != "control"@.len());
    assert("shift"@.len() != "alt"@.len());
    assert("shift"@.len() != "option"@.len());
}

/// One more modifier, if it is held.
proof fn lemma_add(s: Seq<Seq<char>>, on: bool, name: Seq<char>)
    ensures
        modifiers_of(s + (if on {
            seq![name]
        } else {
            Seq::empty()
        })) == if on {
            match modifiers_of(s) {
                Some(m) => modifier(name, m),
                None => None,
            }
        } else {
            modifiers_of(s)
        },
{
    if on {
        assert((s + seq![name]).drop_last() =~= s);
        assert((s + seq![name]).last() == name);
    } else {
        assert(s + Seq::<Seq<char>>::empty() =~= s);
    }
}

/// The parts of a typed shortcut hold no plus sign and no white space around them.
proof fn lemma_typed_parts(m: Modifiers, key: Seq<char>)
    requires
        plain(key),
    ensures
        forall|i: int|
            0 <= i < modifier_names(m).push(key).len() ==> !(#[trigger] modifier_names(m).push(
                key,
            )[i]).contains('+') && trimmed(modifier_names(m).push(key)[i]) == modifier_names(
                m,
            ).push(key)[i],
{
    let all = modifier_names(m).push(key);
    lemma_modifier_names();
    assert forall|i: int| 0 <= i < all.len() implies plain(#[trigger] all[i]) by {
        assert(all[i] == key || all[i] == "Cmd"@ || all[i] == "Ctrl"@ || all[i] == "Alt"@ || all[i]
            == "Shift"@);
    }
    assert forall|i: int| 0 <= i < all.len() implies !(#[trigger] all[i]).contains('+') && trimmed(
        all[i],
    ) == all[i] by {
        lemma_plain(all[i]);
    }
}

/// The names of the modifiers held stand for those modifiers.
proof fn lemma_typed_modifiers(m: Modifiers)
    ensures
        modifiers_of(modifier_names(m)) == Some(Modifiers { command: false, ..m }),
{
    lemma_modifier_names();
    let e = Seq::<Seq<char>>::empty();
    let n1 = e + (if m.mac_cmd {
        seq!["Cmd"@]
    } else {
        Seq::empty()
    });
    let n2 = n1 + (if m.ctrl {
        seq!["Ctrl"@]
    } else {
        Seq::empty()
    });
    let n3 = n2 + (if m.alt {
        seq!["Alt"@]
    } else {
        Seq::empty()
    });
    let n4 = n3 + (if m.shift {
        seq!["Shift"@]
    } else {
        Seq::empty()
    });
    lemma_add(e, m.mac_cmd, "Cmd"@);
    lemma_add(n1, m.ctrl, "Ctrl"@);
    lemma_add(n2, m.alt, "Alt"@);
    lemma_add(n3, m.shift, "Shift"@);
    let m1 = Modifiers { mac_cmd: m.mac_cmd, ..Modifiers::none() };
    let m2 = Modifiers { ctrl: m.ctrl, ..m1 };
    let m3 = Modifiers { alt: m.alt, ..m2 };
    let m4 = Modifiers { shift: m.shift, ..m3 };
    assert(modifiers_of(n1) == Some(m1));
    assert(modifiers_of(n2) == Some(m2));
    assert(modifiers_of(n3) == Some(m3));
    assert(modifiers_of(n4) == Some(m4));
    assert(modifier_names(m) =~= n4);
}

/// A shortcut that was typed is read back as the same combination; the key is
/// the one that its name gives.
pub proof fn law_typed_round_trip(m: Modifiers, key: Seq<char>, platform: Platform)
    requires
        plain(key),
    ensures
        parsed(typed_text(m, key), platform) == match key_from_name(key) {
            Some(k) => Some((with_command(m, platform), k)),
            None => None,
        },
{
    let all = modifier_names(m).push(key);
    let text = typed_text(m, key);
    lemma_typed_parts(m, key);
    lemma_typed_modifiers(m);
    lemma_plain(key);
    reveal_strlit("+");
    assert("+"@ =~= seq!['+']);
    crate::text::lemma_split_joined(all, '+');
    assert(split(text, '+').map_values(|p: Seq<char>| trimmed(p)) =~= all);
    assert(text.len() > 0 && text.last() == key.last()) by {
        assert(all.last() == key);
        if all.len() > 1 {
            assert(text == joined(all.drop_last(), "+"@) + "+"@ + key);
        }
    }
    reveal_strlit("++");
    assert(!ends(text, "++"@)) by {
        if ends(text, "++"@) {
            assert(text.skip(text.len() - 2)[1] == text.last());
            assert("++"@[1] == '+');
        }
    }
    assert(parts_of(text) == all);
    assert(all.drop_last() =~= modifier_names(m));
}

/// How many modifiers a combination asks for.
pub open spec fn weight(m: Modifiers) -> int {
    (if m.shift {
        1int
    } else {
        0
    }) + (if m.alt {
        1int
    } else {
        0
    }) + (if m.ctrl {
        1int
    } else {
        0
    }) + (if m.mac_cmd {
        1int
    } else {
        0
    })
}

fn weight_of(m: &Modifiers) -> (r: u32)
    ensures
        r == weight(*m),
{
    let mut n: u32 = 0;
    if m.shift {
        n += 1;
    }
    if m.alt {
        n += 1;
    }
    if m.ctrl {
        n += 1;
    }
    if m.mac_cmd {
        n += 1;
    }
    n
}

/// A combination and the action bound to it.
pub struct Binding {
    pub shortcut: KeyboardShortcut,
    pub action: ShortcutAction,
}

impl View for Binding {
    type V = ((Modifiers, Seq<char>), ShortcutAction);

    open spec fn view(&self) -> ((Modifiers, Seq<char>), ShortcutAction) {
        (self.shortcut@, self.action)
    }
}

/// The bindings of the actions in a list, in their order: those whose shortcut stands
/// for a combination.
pub open spec fn bound(s: ShortcutsModel, platform: Platform, acts: Seq<ShortcutAction>) -> Seq<
    ((Modifiers, Seq<char>), ShortcutAction),
>
    decreases acts.len(),
{
    if acts.len() == 0 {
        Seq::empty()
    } else {
        let rest = bound(s, platform, acts.drop_last());
        match parsed(s.of(acts.last()), platform) {
            Some(k) => rest.push((k, acts.last())),
            None => rest,
        }
    }
}

fn bound_actions(shortcuts: &Shortcuts, platform: Platform) -> (r: Vec<Binding>)
    ensures
        crate::model::models(r@) == bound(shortcuts@, platform, actions()),
{
    let all = ShortcutAction::all();
    let mut r: Vec<Binding> = Vec::new();
    let mut i: usize = 0;
    assert(actions().take(0) =~= Seq::empty());
    assert(crate::model::models(r@) =~= bound(shortcuts@, platform, actions().take(0)));
    while i < all.len()
        invariant
            i <= all@.len(),
            all@ == actions(),
            crate::model::models(r@) == bound(shortcuts@, platform, actions().take(i as int)),
        decreases all.len() - i,
    {
        let action = all[i];
        let ghost so_far = r@;
        assert(actions().take(i + 1).drop_last() =~= actions().take(i as int));
        if let Some(shortcut) = action.get(shortcuts).parse(platform) {
            r.push(Binding { shortcut, action });
            proof {
                crate::model::lemma_push(so_far, r@.last());
            }
        }
        i += 1;
    }
    assert(actions().take(i as int) =~= actions());
    r
}

/// The bindings of a list that ask for `w` modifiers, in their order.
pub open spec fn with_weight(l: Seq<((Modifiers, Seq<char>), ShortcutAction)>, w: int) -> Seq<
    ((Modifiers, Seq<char>), ShortcutAction),
>
    decreases l.len(),
{
    if l.len() == 0 {
        Seq::empty()
    } else {
        let rest = with_weight(l.drop_last(), w);
        if weight(l.last().0.0) == w {
            rest.push(l.last())
        } else {
            rest
        }
    }
}

/// The bindings of a list that ask for at least `w` modifiers, those that ask for most
/// first.
pub open spec fn by_weight(l: Seq<((Modifiers, Seq<char>), ShortcutAction)>, w: int) -> Seq<
    ((Modifiers, Seq<char>), ShortcutAction),
>
    decreases 5 - w,
{
    if w > 4 {
        Seq::empty()
    } else {
        by_weight(l, w + 1) + with_weight(l, w)
    }
}

/// Puts bindings in the order in which they are looked at, the most specific first: a
/// combination is also taken with more modifiers than it asks for.
pub fn most_specific_first(list: &Vec<Binding>) -> (r: Vec<Binding>)
    ensures
        crate::model::models(r@) == by_weight(crate::model::models(list@), 0),
{
    let ghost all = crate::model::models(list@);
    let mut r: Vec<Binding> = Vec::new();
    let mut w: u32 = 5;
    assert(crate::model::models(r@) =~= by_weight(all, 5));
    while w > 0
        invariant
            w <= 5,
            all == crate::model::models(list@),
            crate::model::models(r@) == by_weight(all, w as int),
        decreases w,
    {
        w -= 1;
        let mut i: usize = 0;
        let ghost before = crate::model::models(r@);
        assert(all.take(0) =~= Seq::empty());
        assert(before + with_weight(all.take(0), w as int) =~= before);
        while i < list.len()
            invariant
                i <= list@.len(),
                all == crate::model::models(list@),
                crate::model::models(r@) == before + with_weight(all.take(i as int), w as int),
            decreases list.len() - i,
        {
            let b = &list[i];
            let ghost so_far = r@;
            proof {
                assert(all.take(i + 1).drop_last() =~= all.take(i as int));
                assert(all.take(i + 1).last() == b@);
            }
            if weight_of(&b.shortcut.modifiers) == w {
                let shortcut = KeyboardShortcut {
                    modifiers: b.shortcut.modifiers,
                    logical_key: b.shortcut.logical_key.clone(),
                };
                r.push(Binding { shortcut, action: b.action });
                proof {
                    crate::model::lemma_push(so_far, r@.last());
                }
            }
            assert(crate::model::models(r@) =~= before + with_weight(all.take(i + 1), w as int));
            i += 1;
        }
        assert(all.take(i as int) =~= all);
    }
    r
}

/// The configurable shortcuts, in the order in which they are looked at.
pub fn bindings(shortcuts: &Shortcuts, platform: Platform) -> (r: Vec<Binding>)
    ensures
        crate::model::models(r@) == by_weight(bound(shortcuts@, platform, actions()), 0),
{
    most_specific_first(&bound_actions(shortcuts, platform))
}

/// A binding that is looked at before another asks for at least as many modifiers.
pub proof fn law_most_specific_first(
    l: Seq<((Modifiers, Seq<char>), ShortcutAction)>,
    w: int,
    i: int,
    j: int,
)
    requires
        0 <= i <= j < by_weight(l, w).len(),
    ensures
        weight(by_weight(l, w)[i].0.0) >= weight(by_weight(l, w)[j].0.0) >= w,
    decreases 5 - w,
{
    if w <= 4 {
        let high = by_weight(l, w + 1);
        let here = with_weight(l, w);
        lemma_with_weight(l, w);
        if i < high.len() && j < high.len() {
            law_most_specific_first(l, w + 1, i, j);
        } else if i < high.len() {
            law_most_specific_first(l, w + 1, i, i);
            assert(by_weight(l, w)[j] == here[j - high.len()]);
        } else {
            assert(by_weight(l, w)[i] == here[i - high.len()]);
            assert(by_weight(l, w)[j] == here[j - high.len()]);
        }
    }
}

/// Putting bindings in order neither loses one nor adds any.
pub proof fn law_bindings_kept(
    l: Seq<((Modifiers, Seq<char>), ShortcutAction)>,
    b: ((Modifiers, Seq<char>), ShortcutAction),
)
    ensures
        by_weight(l, 0).contains(b) == l.contains(b),
        by_weight(l, 0).len() == l.len(),
{
    reveal_with_fuel(by_weight, 6);
    lemma_where(l, b, 0);
    lemma_where(l, b, 1);
    lemma_where(l, b, 2);
    lemma_where(l, b, 3);
    lemma_where(l, b, 4);
    lemma_weights_add_up(l);
    let parts = with_weight(l, 4) + with_weight(l, 3) + with_weight(l, 2) + with_weight(l, 1)
        + with_weight(l, 0);
    assert(by_weight(l, 0) =~= parts);
    assert(parts.contains(b) == (with_weight(l, 4).contains(b) || with_weight(l, 3).contains(b)
        || with_weight(l, 2).contains(b) || with_weight(l, 1).contains(b) || with_weight(
        l,
        0,
    ).contains(b))) by {
        broadcast use vstd::seq_lib::group_seq_properties;

    }
}

proof fn lemma_where(
    l: Seq<((Modifiers, Seq<char>), ShortcutAction)>,
    b: ((Modifiers, Seq<char>), ShortcutAction),
    w: int,
)
    ensures
        with_weight(l, w).contains(b) == (l.contains(b) && weight(b.0.0) == w),
    decreases l.len(),
{
    broadcast use vstd::seq_lib::group_seq_properties;

    if l.len() > 0 {
        lemma_where(l.drop_last(), b, w);
        assert(l =~= l.drop_last().push(l.last()));
    }
}

proof fn lemma_weights_add_up(l: Seq<((Modifiers, Seq<char>), ShortcutAction)>)
    ensures
        with_weight(l, 0).len() + with_weight(l, 1).len() + with_weight(l, 2).len() + with_weight(
            l,
            3,
        ).len() + with_weight(l, 4).len() == l.len(),
    decreases l.len(),
{
    if l.len() > 0 {
        lemma_weights_add_up(l.drop_last());
    }
}

proof fn lemma_with_weight(l: Seq<((Modifiers, Seq<char>), ShortcutAction)>, w: int)
    ensures
        forall|i: int|
            0 <= i < with_weight(l, w).len() ==> weight((#[trigger] with_weight(l, w)[i]).0.0) == w,
    decreases l.len(),
{
    if l.len() > 0 {
        let rest = with_weight(l.drop_last(), w);
        let all = with_weight(l, w);
        lemma_with_weight(l.drop_last(), w);
        assert forall|i: int| 0 <= i < all.len() implies weight((#[trigger] all[i]).0.0) == w by {
            if i < rest.len() {
                assert(all[i] == rest[i]);
            }
        }
    }
}

/// Whether a combination bound to an action is bound to another one as well.
pub open spec fn clashing(
    l: Seq<((Modifiers, Seq<char>), ShortcutAction)>,
    a: ShortcutAction,
) -> bool {
    exists|i: int, j: int|
        0 <= i < l.len() && 0 <= j < l.len() && (#[trigger] l[i]).1 == a && (#[trigger] l[j]).1 != a
            && l[i].0 == l[j].0
}

/// Tells whether some binding of an action has the combination of another action.
pub fn clashes(list: &Vec<Binding>, action: ShortcutAction) -> (r: bool)
    ensures
        r == clashing(crate::model::models(list@), action),
{
    let ghost all = crate::model::models(list@);
    let mut i: usize = 0;
    while i < list.len()
        invariant
            i <= list@.len(),
            all == crate::model::models(list@),
            forall|k: int, j: int|
                0 <= k < i && 0 <= j < all.len() && (#[trigger] all[k]).1 == action && (
                #[trigger] all[j]).1 != action ==> all[k].0 != all[j].0,
        decreases list.len() - i,
    {
        if list[i].action == action {
            let mut n: usize = 0;
            while n < list.len()
                invariant
                    i < list@.len(),
                    n <= list@.len(),
                    all == crate::model::models(list@),
                    list@[i as int].action == action,
                    forall|j: int|
                        0 <= j < n && (#[trigger] all[j]).1 != action ==> all[i as int].0
                            != all[j].0,
                decreases list.len() - n,
            {
                let (mine, other) = (&list[i], &list[n]);
                assert(all[i as int] == mine@ && all[n as int] == other@);
                if other.action != action && other.shortcut.modifiers == mine.shortcut.modifiers
                    && same_str(
                    other.shortcut.logical_key.as_str(),
                    mine.shortcut.logical_key.as_str(),
                ) {
                    return true;
                }
                n += 1;
            }
        }
        i += 1;
    }
    false
}

/// Whether the combination of an action is bound to another one as well.
pub open spec fn in_conflict(s: ShortcutsModel, platform: Platform, a: ShortcutAction) -> bool {
    parsed(s.of(a), platform) is Some && exists|b: ShortcutAction|
        b != a && #[trigger] parsed(s.of(b), platform) == parsed(s.of(a), platform)
}

proof fn lemma_bound(s: ShortcutsModel, platform: Platform, acts: Seq<ShortcutAction>)
    ensures
        forall|i: int|
            0 <= i < bound(s, platform, acts).len() ==> {
                let b = #[trigger] bound(s, platform, acts)[i];
                parsed(s.of(b.1), platform) == Some(b.0)
            },
        forall|j: int|
            0 <= j < acts.len() && parsed(s.of(#[trigger] acts[j]), platform) is Some ==> bound(
                s,
                platform,
                acts,
            ).contains((parsed(s.of(acts[j]), platform)->0, acts[j])),
    decreases acts.len(),
{
    if acts.len() > 0 {
        let less = acts.drop_last();
        let (rest, all) = (bound(s, platform, less), bound(s, platform, acts));
        lemma_bound(s, platform, less);
        assert forall|i: int| 0 <= i < all.len() implies {
            let b = #[trigger] all[i];
            parsed(s.of(b.1), platform) == Some(b.0)
        } by {
            if i < rest.len() {
                assert(all[i] == rest[i]);
            }
        }
        assert forall|j: int|
            0 <= j < acts.len() && parsed(s.of(#[trigger] acts[j]), platform) is Some implies all.contains(
            (parsed(s.of(acts[j]), platform)->0, acts[j]),
        ) by {
            let b = (parsed(s.of(acts[j]), platform)->0, acts[j]);
            if j < less.len() {
                assert(less[j] == acts[j]);
                assert(rest.contains(b));
                let i = choose|i: int| 0 <= i < rest.len() && rest[i] == b;
                assert(all[i] == b);
            } else {
                assert(all[rest.len() as int] == b);
            }
        }
    }
}

/// Tells whether the same combination is bound to two actions: only one would work.
pub fn conflict(shortcuts: &Shortcuts, platform: Platform, action: ShortcutAction) -> (r: bool)
    ensures
        r == in_conflict(shortcuts@, platform, action),
{
    let list = bound_actions(shortcuts, platform);
    proof {
        let s = shortcuts@;
        let l = bound(s, platform, actions());
        lemma_bound(s, platform, actions());
        if clashing(l, action) {
            let (i, j) = choose|i: int, j: int|
                0 <= i < l.len() && 0 <= j < l.len() && (#[trigger] l[i]).1 == action && (
                #[trigger] l[j]).1 != action && l[i].0 == l[j].0;
            assert(parsed(s.of(l[j].1), platform) == parsed(s.of(l[i].1), platform));
        }
        if in_conflict(s, platform, action) {
            let b = choose|b: ShortcutAction|
                b != action && #[trigger] parsed(s.of(b), platform) == parsed(s.of(action), platform);
            lemma_listed(action);
            lemma_listed(b);
            let x = choose|j: int| 0 <= j < actions().len() && #[trigger] actions()[j] == action;
            let y = choose|j: int| 0 <= j < actions().len() && #[trigger] actions()[j] == b;
            let k = parsed(s.of(action), platform)->0;
            assert(l.contains((k, actions()[x])));
            assert(l.contains((k, actions()[y])));
            let i = choose|i: int| 0 <= i < l.len() && l[i] == (k, action);
            let j = choose|j: int| 0 <= j < l.len() && l[j] == (k, b);
            assert(l[i].1 == action && l[j].1 != action);
        }
    }
    clashes(&list, action)
}

/// Every action is listed.
proof fn lemma_listed(a: ShortcutAction)
    ensures
        exists|j: int| 0 <= j < actions().len() && #[trigger] actions()[j] == a,
{
    let n: int = match a {
        ShortcutAction::NewTab => 0,
        ShortcutAction::ClosePane => 1,
        ShortcutAction::SplitRight => 2,
        ShortcutAction::SplitDown => 3,
        ShortcutAction::FindText => 4,
        ShortcutAction::FindCommands => 5,
        ShortcutAction::ReopenTab => 6,
        ShortcutAction::ClearPane => 7,
        ShortcutAction::OpenSettings => 8,
        ShortcutAction::ToggleFiles => 9,
    };
    assert(actions()[n] == a);
}

/// What became of a key pressed while a shortcut is recorded.
#[derive(Clone, Copy, PartialEq, Eq, Structural, Debug)]
pub enum Captured {
    /// Escape: nothing changes, and recording ends.
    Cancelled,
    /// The combination replaces the shortcut, and recording ends.
    Bound,
    /// A key without a modifier: recording goes on.
    Ignored,
}

/// What a key pressed while recording leads to.
pub open spec fn captured(m: Modifiers, key: Seq<char>) -> Captured {
    if key == "Escape"@ {
        Captured::Cancelled
    } else if m.command || m.ctrl || m.alt || m.mac_cmd {
        Captured::Bound
    } else {
        Captured::Ignored
    }
}

/// Records a key pressed, given by its name, as the shortcut of an action.
pub fn capture(shortcuts: &mut Shortcuts, action: ShortcutAction, m: Modifiers, key: &str) -> (r:
    Captured)
    ensures
        r == captured(m, key@),
        final(shortcuts)@ == if r is Bound {
            old(shortcuts)@.with(action, typed_text(m, key@))
        } else {
            old(shortcuts)@
        },
        final(shortcuts)@ == rebound(old(shortcuts)@, action, m, key@),
{
    if same_str(key, "Escape") {
        return Captured::Cancelled;
    }
    if m.command || m.ctrl || m.alt || m.mac_cmd {
        let slot = action.get_mut(shortcuts);
        *slot = Shortcut::typed(m, key);
        return Captured::Bound;
    }
    Captured::Ignored
}

/// The shortcuts after a combination was pressed for an action.
pub open spec fn rebound(
    s: ShortcutsModel,
    action: ShortcutAction,
    m: Modifiers,
    key: Seq<char>,
) -> ShortcutsModel {
    if captured(m, key) is Bound {
        s.with(action, typed_text(m, key))
    } else {
        s
    }
}

} // verus!
