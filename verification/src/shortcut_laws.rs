//! What shortcuts stand for, how they are written and when they clash.

use crate::shortcut::{
    actions, bound, captured, command_text, in_conflict, label_of, mac_label, modifier,
    modifier_names, modifier_symbols, parsed, parts_of, rebound, typed_text, weight, with_command,
    Captured, Modifiers, Platform, ShortcutAction, ShortcutsModel,
};
use crate::text::{ascii_lowered, ends, joined};
use vstd::prelude::*;

verus! {

/// The words for the keys: each stands for one of them, in upper or lower case, and leaves
/// the others.
pub proof fn law_modifier_words(part: Seq<char>, m: Modifiers)
    ensures
        ascii_lowered(part) == "cmd"@ || ascii_lowered(part) == "command"@ || ascii_lowered(part)
            == "super"@ ==> (modifier(part, m) matches Some(r) && r.mac_cmd && r.ctrl == m.ctrl
            && r.alt == m.alt && r.shift == m.shift),
        ascii_lowered(part) == "ctrl"@ || ascii_lowered(part) == "control"@ ==> (modifier(
            part,
            m,
        ) matches Some(r) && r.ctrl && r.mac_cmd == m.mac_cmd && r.alt == m.alt && r.shift
            == m.shift),
        ascii_lowered(part) == "alt"@ || ascii_lowered(part) == "option"@ ==> (modifier(
            part,
            m,
        ) matches Some(r) && r.alt && r.mac_cmd == m.mac_cmd && r.ctrl == m.ctrl && r.shift
            == m.shift),
        ascii_lowered(part) == "shift"@ ==> (modifier(part, m) matches Some(r) && r.shift
            && r.mac_cmd == m.mac_cmd && r.ctrl == m.ctrl && r.alt == m.alt),
        part.len() == 1 || part.len() == 2 || part.len() > 7 ==> modifier(part, m) is None,
{
    reveal_strlit("cmd");
    reveal_strlit("command");
    reveal_strlit("super");
    reveal_strlit("ctrl");
    reveal_strlit("control");
    reveal_strlit("alt");
    reveal_strlit("option");
    reveal_strlit("shift");
    assert(ascii_lowered(part).len() == part.len());
    assert("ctrl"@[0] != "cmd"@[0] || "ctrl"@.len() != "cmd"@.len());
    assert("alt"@[0] == 'a' && "cmd"@[0] == 'c');
    assert("super"@[0] == 's' && "super"@[1] == 'u' && "shift"@[1] == 'h');
    assert("command"@[2] == 'm' && "control"@[2] == 'n');
    assert("option"@.len() == 6);
}

/// The command key is Cmd on a Mac, and Ctrl elsewhere.
pub proof fn law_command_key(m: Modifiers)
    ensures
        with_command(m, Platform::MacOs).command == m.mac_cmd,
        with_command(m, Platform::Windows).command == m.ctrl,
        with_command(m, Platform::Other).command == m.ctrl,
        forall|p: Platform|
            ({
                let r = #[trigger] with_command(m, p);
                r.alt == m.alt && r.ctrl == m.ctrl && r.shift == m.shift && r.mac_cmd == m.mac_cmd
            }),
{
}

/// The usual shortcuts use the command key: Cmd on a Mac, Ctrl with Shift elsewhere, where
/// Ctrl alone is for the shell.
pub proof fn law_usual_shortcut(key: char, platform: Platform)
    ensures
        platform is MacOs ==> command_text(key, platform) == typed_text(
            Modifiers { mac_cmd: true, ..Modifiers::none() },
            seq![key],
        ),
        !(platform is MacOs) ==> command_text(key, platform) == typed_text(
            Modifiers { ctrl: true, shift: true, ..Modifiers::none() },
            seq![key],
        ),
{
    reveal_strlit("Cmd+");
    reveal_strlit("Cmd");
    reveal_strlit("Ctrl+Shift+");
    reveal_strlit("Ctrl");
    reveal_strlit("Shift");
    reveal_strlit("+");
    if platform is MacOs {
        let m = Modifiers { mac_cmd: true, ..Modifiers::none() };
        let parts = modifier_names(m).push(seq![key]);
        assert(parts =~= seq!["Cmd"@, seq![key]]);
        assert(parts.drop_last() =~= seq!["Cmd"@]);
        reveal_with_fuel(joined, 3);
        assert(command_text(key, platform) =~= typed_text(m, seq![key]));
    } else {
        let m = Modifiers { ctrl: true, shift: true, ..Modifiers::none() };
        let parts = modifier_names(m).push(seq![key]);
        assert(parts =~= seq!["Ctrl"@, "Shift"@, seq![key]]);
        assert(parts.drop_last() =~= seq!["Ctrl"@, "Shift"@]);
        assert(parts.drop_last().drop_last() =~= seq!["Ctrl"@]);
        reveal_with_fuel(joined, 4);
        assert(command_text(key, platform) =~= typed_text(m, seq![key]));
    }
}

/// A shortcut is written with its key last.
pub proof fn law_key_last(m: Modifiers, key: Seq<char>)
    ensures
        ends(typed_text(m, key), key),
        ends(mac_label(m, key), key),
        typed_text(Modifiers::none(), key) == key,
        mac_label(Modifiers::none(), key) == key,
{
    let parts = modifier_names(m).push(key);
    assert(parts.last() == key);
    let t = typed_text(m, key);
    assert(t.skip(t.len() - key.len()) =~= key);
    let symbols = modifier_symbols(m).push(key);
    assert(symbols.last() == key);
    let l = mac_label(m, key);
    assert(l.skip(l.len() - key.len()) =~= key);
    assert(modifier_names(Modifiers::none()).push(key) =~= seq![key]);
    assert(modifier_symbols(Modifiers::none()).push(key) =~= seq![key]);
}

/// The signs of a Mac: one for each key that is held.
pub proof fn law_mac_signs(m: Modifiers)
    ensures
        modifier_symbols(m).contains("⌃"@) == m.ctrl,
        modifier_symbols(m).contains("⌥"@) == m.alt,
        modifier_symbols(m).contains("⇧"@) == m.shift,
        modifier_symbols(m).contains("⌘"@) == m.mac_cmd,
{
    reveal_strlit("⌃");
    reveal_strlit("⌥");
    reveal_strlit("⇧");
    reveal_strlit("⌘");
    let s = modifier_symbols(m);
    let a: int = if m.ctrl {
        1
    } else {
        0
    };
    let b: int = if m.alt {
        1
    } else {
        0
    };
    let c: int = if m.shift {
        1
    } else {
        0
    };
    if m.ctrl {
        assert(s[0] == "⌃"@);
    }
    if m.alt {
        assert(s[a] == "⌥"@);
    }
    if m.shift {
        assert(s[a + b] == "⇧"@);
    }
    if m.mac_cmd {
        assert(s[a + b + c] == "⌘"@);
    }
    assert("⌃"@[0] != "⌥"@[0] && "⌃"@[0] != "⇧"@[0] && "⌃"@[0] != "⌘"@[0]);
    assert("⌥"@[0] != "⇧"@[0] && "⌥"@[0] != "⌘"@[0] && "⇧"@[0] != "⌘"@[0]);
}

/// Only a Mac shows signs; elsewhere a shortcut is shown as it is written, as is one that
/// cannot be read.
pub proof fn law_labels(s: Seq<char>)
    ensures
        label_of(s, Platform::Windows) == s,
        label_of(s, Platform::Other) == s,
        parsed(s, Platform::MacOs) is None ==> label_of(s, Platform::MacOs) == s,
{
}

/// At first only clearing a pane and the settings have shortcuts.
pub proof fn law_default_shortcuts(platform: Platform, a: ShortcutAction)
    ensures
        ShortcutsModel::defaults(platform).of(ShortcutAction::ClearPane) == command_text(
            'K',
            platform,
        ),
        ShortcutsModel::defaults(platform).of(ShortcutAction::OpenSettings) == command_text(
            'P',
            platform,
        ),
        !(a is ClearPane) && !(a is OpenSettings) ==> ShortcutsModel::defaults(platform).of(a).len()
            == 0,
{
}

/// Every action can have a shortcut, and is listed once.
pub proof fn law_all_actions(a: ShortcutAction)
    ensures
        actions().contains(a),
        actions().no_duplicates(),
{
    let s = actions();
    let i: int = match a {
        ShortcutAction::NewTab => 0,
        ShortcutAction::ClosePane => 1,
        ShortcutAction::SplitRight => 2,
        ShortcutAction::SplitDown => 3,
        ShortcutAction::FindText => 4,
        ShortcutAction::FindCommands => 5,
        ShortcutAction::ReopenTab => 6,
        ShortcutAction::ClearPane => 7,
        ShortcutAction::OpenSettings => 8,
        ShortcutAction::ToggleFiles => 9,
    };
    assert(s[i] == a);
}

/// Each field of the shortcuts is that of its action.
pub proof fn law_action_fields(s: ShortcutsModel)
    ensures
        s.of(ShortcutAction::NewTab) == s.new_tab,
        s.of(ShortcutAction::ClosePane) == s.close_pane,
        s.of(ShortcutAction::SplitRight) == s.split_right,
        s.of(ShortcutAction::SplitDown) == s.split_down,
        s.of(ShortcutAction::FindText) == s.find_text,
        s.of(ShortcutAction::FindCommands) == s.find_commands,
        s.of(ShortcutAction::ReopenTab) == s.reopen_tab,
        s.of(ShortcutAction::ClearPane) == s.clear_pane,
        s.of(ShortcutAction::OpenSettings) == s.open_settings,
        s.of(ShortcutAction::ToggleFiles) == s.toggle_files,
{
}

/// A shortcut that can be read is bound to its action, and no other is.
pub proof fn law_bound(
    s: ShortcutsModel,
    platform: Platform,
    acts: Seq<ShortcutAction>,
    k: (Modifiers, Seq<char>),
    a: ShortcutAction,
)
    ensures
        bound(s, platform, acts).contains((k, a)) <==> acts.contains(a) && parsed(
            s.of(a),
            platform,
        ) == Some(k),
    decreases acts.len(),
{
    if acts.len() > 0 {
        let rest = acts.drop_last();
        law_bound(s, platform, rest, k, a);
        let before = bound(s, platform, rest);
        let all = bound(s, platform, acts);
        if before.contains((k, a)) {
            let i = choose|i: int| 0 <= i < before.len() && before[i] == (k, a);
            assert(all[i] == (k, a));
        }
        if let Some(p) = parsed(s.of(acts.last()), platform) {
            assert(all.last() == (p, acts.last()));
            if all.contains((k, a)) && (k, a) != (p, acts.last()) {
                let i = choose|i: int| 0 <= i < all.len() && all[i] == (k, a);
                assert(before[i] == (k, a));
            }
        }
        if rest.contains(a) {
            let i = choose|i: int| 0 <= i < rest.len() && rest[i] == a;
            assert(acts[i] == a);
        }
        if acts.contains(a) && a != acts.last() {
            let i = choose|i: int| 0 <= i < acts.len() && acts[i] == a;
            assert(rest[i] == a);
        }
        assert(acts[acts.len() - 1] == acts.last());
    }
}

/// Two actions with the same shortcut are both in conflict; one without a shortcut is in
/// none, and neither is one that has its own.
pub proof fn law_conflicts(
    s: ShortcutsModel,
    platform: Platform,
    a: ShortcutAction,
    b: ShortcutAction,
)
    ensures
        a != b && parsed(s.of(a), platform) is Some && parsed(s.of(a), platform) == parsed(
            s.of(b),
            platform,
        ) ==> in_conflict(s, platform, a) && in_conflict(s, platform, b),
        parsed(s.of(a), platform) is None ==> !in_conflict(s, platform, a),
        (forall|c: ShortcutAction|
            c != a ==> #[trigger] parsed(s.of(c), platform) != parsed(s.of(a), platform))
            ==> !in_conflict(s, platform, a),
{
}

/// The more keys are held, the more a shortcut weighs.
pub proof fn law_weight(m: Modifiers)
    ensures
        0 <= weight(m) <= 4,
        weight(Modifiers::none()) == 0,
        !m.shift ==> weight(Modifiers { shift: true, ..m }) == weight(m) + 1,
        !m.alt ==> weight(Modifiers { alt: true, ..m }) == weight(m) + 1,
        !m.ctrl ==> weight(Modifiers { ctrl: true, ..m }) == weight(m) + 1,
        !m.mac_cmd ==> weight(Modifiers { mac_cmd: true, ..m }) == weight(m) + 1,
{
}

/// Escape leaves a shortcut as it is; a combination with a modifier becomes the shortcut of
/// the action, and of no other; a key alone is not taken.
pub proof fn law_recorded(
    s: ShortcutsModel,
    a: ShortcutAction,
    b: ShortcutAction,
    m: Modifiers,
    key: Seq<char>,
)
    ensures
        captured(m, "Escape"@) == Captured::Cancelled,
        key != "Escape"@ && (m.command || m.ctrl || m.alt || m.mac_cmd) ==> captured(m, key)
            == Captured::Bound && rebound(s, a, m, key).of(a) == typed_text(m, key),
        key != "Escape"@ && !m.command && !m.ctrl && !m.alt && !m.mac_cmd ==> captured(m, key)
            == Captured::Ignored,
        !(captured(m, key) is Bound) ==> rebound(s, a, m, key) == s,
        a != b ==> rebound(s, a, m, key).of(b) == s.of(b),
{
}

/// The plus key itself can be part of a shortcut: it comes last then.
pub proof fn law_plus_key(s: Seq<char>)
    ensures
        ends(s, "++"@) ==> parts_of(s).last() == "+"@,
{
}

} // verus!
