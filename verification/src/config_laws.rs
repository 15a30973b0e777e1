//! What a config starts with, how ids and actions are written, and what the queue of
//! transfers keeps.

use crate::app::AppModel;
use crate::config::{
    ConfigModel, Lang, LayoutModel, ProfileModel, SettingsModel, SshHostModel, WindowState,
};
use crate::ids::{hex_char, hex_digits, id_text};
use crate::keys::{is_update_due, versioned};
use crate::pane::{PaneId, Real};
use crate::popups::on_one_line;
use crate::search::SearchModel;
use crate::sftp::{EventModel, RequestModel};
use crate::shortcut::{clashing, Modifiers, Platform, ShortcutAction, ShortcutsModel};
use crate::sidebar::{drags, Dragged, Row};
use crate::strings::Strings;
use crate::text::{ends, joined, split, trimmed};
use crate::transfer::{
    begun, closing_words, ending_of, is_cancelled, over_in, queued_in, tail, text_bytes,
    transfer_id, with_cancel, BeginModel, Ending,
};
use vstd::prelude::*;

verus! {

/// A new config holds the settings and nothing else; so does a new window.
pub proof fn law_blank(settings: SettingsModel)
    ensures
        ({
            let c = ConfigModel::blank(settings);
            &&& c.settings == settings
            &&& c.profiles.len() == 0 && c.ssh.len() == 0 && c.groups.len() == 0
            &&& c.ungrouped.len() == 0 && c.commands.len() == 0 && c.extra.len() == 0
        }),
        ({
            let m = AppModel::blank(settings);
            &&& m.config.settings == settings
            &&& m.tabs.len() == 0 && m.closed.len() == 0
            &&& m.config_writable && !m.read_only && !m.session_frozen && !m.close_confirmed
            &&& m.error is None && m.confirm_close is None && m.window is None
        }),
{
}

/// At first the directories are shown and updates are looked for, with the usual shortcuts.
pub proof fn law_first_settings(language: Lang, theme: Seq<char>, platform: Platform)
    ensures
        ({
            let s = SettingsModel::first(language, theme, platform);
            &&& s.language == language && s.theme == theme
            &&& s.show_cwd && s.auto_update
            &&& s.shortcuts == ShortcutsModel::defaults(platform)
        }),
{
}

/// A new host has its id and nothing else.
pub proof fn law_blank_host(id: u128)
    ensures
        ({
            let h = SshHostModel::blank(id);
            &&& h.id == id && h.name.len() == 0 && h.host.len() == 0
            &&& h.user is None && h.port is None && h.auth is None && h.identity_file is None
            &&& !h.password_saved && !h.imported && h.commands.len() == 0
        }),
{
}

/// A profile goes by its name, or by the word for one without.
pub proof fn law_profile_title(p: ProfileModel, untitled: Seq<char>)
    ensures
        p.tab.name matches Some(n) ==> p.title(untitled) == n,
        p.tab.name is None ==> p.title(untitled) == untitled,
{
}

/// The panes of a layout are those of its halves, the first half first.
pub proof fn law_layout_parts(l: LayoutModel)
    ensures
        l matches LayoutModel::Pane { cwd, history } ==> l.count() == 1 && l.dirs() == seq![cwd] && (
        history matches Some(h) ==> l.history_ids() == seq![h]) && (history is None
            ==> l.history_ids().len() == 0),
        l matches LayoutModel::Split { a, b, .. } ==> l.count() == a.count() + b.count() && l.dirs()
            == a.dirs() + b.dirs() && l.history_ids() == a.history_ids() + b.history_ids(),
{
}

/// Numbers count as the same if their bits are, and the two zeros do; what is no number is
/// like nothing.
pub proof fn law_same_numbers(a: Real, b: Real)
    ensures
        a.equals(b) == b.equals(a),
        a.is_nan() ==> !a.equals(b),
        !a.is_nan() ==> a.equals(a),
        a.bits == 0 && b.bits == 0x8000_0000 ==> a.equals(b),
        a.equals(b) && a.bits != 0 && a.bits != 0x8000_0000 ==> a == b,
        0x7f80_0000 < a.bits < 0x8000_0000 ==> a.is_nan(),
        a.bits <= 0x7f80_0000 ==> !a.is_nan(),
{
}

/// A window that was moved, resized or maximized is another one.
pub proof fn law_same_windows(a: WindowState, b: WindowState)
    requires
        a.equals(b),
    ensures
        a.x.equals(b.x),
        a.y.equals(b.y),
        a.width.equals(b.width),
        a.height.equals(b.height),
        a.maximized == b.maximized,
        a.fullscreen == b.fullscreen,
{
}

spec fn sixteens(n: nat) -> nat
    decreases n,
{
    if n == 0 {
        1
    } else {
        16 * sixteens((n - 1) as nat)
    }
}

proof fn lemma_hex_apart(a: int, b: int, n: nat)
    requires
        0 <= a < sixteens(n),
        0 <= b < sixteens(n),
        hex_digits(a, n) == hex_digits(b, n),
    ensures
        a == b,
    decreases n,
{
    if n > 0 {
        let (x, y) = (hex_digits(a, n), hex_digits(b, n));
        assert(x.drop_last() =~= hex_digits(a / 16, (n - 1) as nat));
        assert(y.drop_last() =~= hex_digits(b / 16, (n - 1) as nat));
        assert(x.last() == hex_char(a % 16));
        assert(y.last() == hex_char(b % 16));
        lemma_hex_apart(a / 16, b / 16, (n - 1) as nat);
    }
}

proof fn lemma_hex_len(v: int, n: nat)
    ensures
        hex_digits(v, n).len() == n,
    decreases n,
{
    if n > 0 {
        lemma_hex_len(v / 16, (n - 1) as nat);
    }
}

/// An id is written in the usual five groups, and two ids are written differently.
pub proof fn law_id_text(a: u128, b: u128)
    ensures
        id_text(a).len() == 36,
        id_text(a)[8] == '-' && id_text(a)[13] == '-' && id_text(a)[18] == '-' && id_text(a)[23]
            == '-',
        id_text(a) == id_text(b) ==> a == b,
{
    let (x, y) = (hex_digits(a as int, 32), hex_digits(b as int, 32));
    lemma_hex_len(a as int, 32);
    lemma_hex_len(b as int, 32);
    if id_text(a) == id_text(b) {
        let (s, t) = (id_text(a), id_text(b));
        assert(s.subrange(0, 8) =~= x.subrange(0, 8));
        assert(t.subrange(0, 8) =~= y.subrange(0, 8));
        assert(s.subrange(9, 13) =~= x.subrange(8, 12));
        assert(t.subrange(9, 13) =~= y.subrange(8, 12));
        assert(s.subrange(14, 18) =~= x.subrange(12, 16));
        assert(t.subrange(14, 18) =~= y.subrange(12, 16));
        assert(s.subrange(19, 23) =~= x.subrange(16, 20));
        assert(t.subrange(19, 23) =~= y.subrange(16, 20));
        assert(s.subrange(24, 36) =~= x.subrange(20, 32));
        assert(t.subrange(24, 36) =~= y.subrange(20, 32));
        assert(x =~= x.subrange(0, 8) + x.subrange(8, 12) + x.subrange(12, 16) + x.subrange(16, 20)
            + x.subrange(20, 32));
        assert(y =~= y.subrange(0, 8) + y.subrange(8, 12) + y.subrange(12, 16) + y.subrange(16, 20)
            + y.subrange(20, 32));
        reveal_with_fuel(sixteens, 33);
        assert(sixteens(32) == 0x1_0000_0000_0000_0000_0000_0000_0000_0000int);
        lemma_hex_apart(a as int, b as int, 32);
    }
}

/// The settings call every action by its own name, and a size by its own unit.
pub proof fn law_labels_of_actions(t: Strings)
    ensures
        t.action(ShortcutAction::NewTab) == t.shortcut_new_tab@,
        t.action(ShortcutAction::ClosePane) == t.shortcut_close_pane@,
        t.action(ShortcutAction::SplitRight) == t.shortcut_split_right@,
        t.action(ShortcutAction::SplitDown) == t.shortcut_split_down@,
        t.action(ShortcutAction::FindText) == t.shortcut_find_text@,
        t.action(ShortcutAction::FindCommands) == t.history_search@,
        t.action(ShortcutAction::ReopenTab) == t.shortcut_reopen@,
        t.action(ShortcutAction::ClearPane) == t.shortcut_clear_pane@,
        t.action(ShortcutAction::OpenSettings) == t.shortcut_open_settings@,
        t.action(ShortcutAction::ToggleFiles) == t.shortcut_toggle_files@,
        t.unit(0) == t.unit_b@,
        t.unit(1) == t.unit_kb@,
        t.unit(2) == t.unit_mb@,
        t.unit(3) == t.unit_gb@,
        t.unit(4) == t.unit_tb@,
{
}

/// A transfer that is sent is not cancelled, one that is cancelled is, and one that is over
/// is known no more. Nothing of this touches another one.
pub proof fn law_transfer_queue(m: Map<u64, bool>, request: RequestModel, id: u64, other: u64)
    requires
        transfer_id(request) == Some(id),
        other != id,
    ensures
        queued_in(m, request).dom().contains(id),
        !is_cancelled(queued_in(m, request), id),
        is_cancelled(with_cancel(queued_in(m, request), id), id),
        !over_in(m, id).dom().contains(id),
        is_cancelled(queued_in(m, request), other) == is_cancelled(m, other),
        is_cancelled(with_cancel(m, id), other) == is_cancelled(m, other),
        is_cancelled(over_in(m, id), other) == is_cancelled(m, other),
{
}

/// A transfer runs as it was asked for, unless it was cancelled; only uploads and downloads
/// are transfers.
pub proof fn law_transfer_begins(m: Map<u64, bool>, request: RequestModel, queue_empty: bool)
    ensures
        transfer_id(request) is Some ==> (request is Download || request is Upload),
        request matches RequestModel::Download { id, .. } ==> transfer_id(request) == Some(id),
        request matches RequestModel::Upload { id, .. } ==> transfer_id(request) == Some(id),
        transfer_id(request) is None ==> begun(m, request, queue_empty) == (m, BeginModel::Nothing),
        transfer_id(request) matches Some(id) ==> (!is_cancelled(m, id) ==> begun(
            m,
            request,
            queue_empty,
        ) == (m, BeginModel::Run(request))) && (is_cancelled(m, id) ==> begun(
            m,
            request,
            queue_empty,
        ).1 is Over),
{
}

/// The last words of ssh are the end of what it said: all of it as long as that is short.
pub proof fn law_last_words(s: Seq<char>)
    ensures
        ends(s, tail(s)),
        text_bytes(tail(s)) <= 4096,
        text_bytes(s) <= 4096 ==> tail(s) == s,
    decreases s.len(),
{
    if s.len() > 0 && text_bytes(s) > 4096 {
        let rest = s.drop_first();
        law_last_words(rest);
        let t = tail(s);
        assert(s.skip(s.len() - t.len()) =~= rest.skip(rest.len() - t.len()));
    } else {
        assert(s.skip(0) =~= s);
    }
}

/// The end of ssh is told with its last words; a connection that was dropped is not told, and
/// one that was refused only where ssh said nothing itself. What still runs is stopped.
pub proof fn law_ending(words: Seq<char>, error: String)
    ensures
        ending_of(Ending::Ended, words) == (Some(EventModel::Closed(closing_words(words))), false),
        ending_of(Ending::Dropped, words) == (None::<EventModel>, true),
        ending_of(Ending::Refused(error), words).1,
        trimmed(words).len() == 0 ==> ending_of(Ending::Refused(error), words).0 == Some(
            EventModel::Closed(error@),
        ),
        trimmed(words).len() > 0 ==> ending_of(Ending::Refused(error), words).0 is None,
        trimmed(words).len() > 0 ==> closing_words(words) == trimmed(words),
        trimmed(words).len() == 0 ==> closing_words(words) == "ssh ended"@,
{
}

/// Updates are looked for every six hours.
pub proof fn law_six_hours(last: u64, now: u64)
    ensures
        is_update_due(true, true, false, Some(last), now) == (now - last >= 6 * 60 * 60 * 1000),
{
}

/// At most fifteen closed tabs are remembered; the oldest is forgotten first.
pub proof fn law_closed_remembered(
    closed: Seq<crate::config::SessionTabModel>,
    id: u128,
    state: crate::config::TabStateModel,
)
    requires
        closed.len() <= 15,
        forall|i: int| 0 <= i < closed.len() ==> (#[trigger] closed[i]).profile != Some(id),
    ensures
        ({
            let r = crate::app::remembered(closed, Some(id), state);
            &&& r.len() <= 15
            &&& closed.len() < 15 ==> r.drop_last() == closed
            &&& closed.len() == 15 ==> r.drop_last() == closed.drop_first()
        }),
{
    let f = crate::app::not_of(Some(id));
    lemma_all_kept(closed, f);
    let r = crate::app::remembered(closed, Some(id), state);
    if closed.len() < 15 {
        assert(r.drop_last() =~= closed);
    } else {
        assert(r.drop_last() =~= closed.drop_first());
    }
}

proof fn lemma_all_kept(
    s: Seq<crate::config::SessionTabModel>,
    f: spec_fn(crate::config::SessionTabModel) -> bool,
)
    requires
        forall|i: int| 0 <= i < s.len() ==> f(#[trigger] s[i]),
    ensures
        s.filter(f) == s,
    decreases s.len(),
{
    reveal(Seq::filter);
    if s.len() > 0 {
        let rest = s.drop_last();
        assert forall|i: int| 0 <= i < rest.len() implies f(#[trigger] rest[i]) by {
            assert(rest[i] == s[i]);
        }
        lemma_all_kept(rest, f);
        assert(f(s[s.len() - 1]));
        assert(rest.push(s.last()) =~= s);
    }
}

/// A command of one line is shown as it is.
pub proof fn law_one_line(command: Seq<char>)
    requires
        !command.contains('\n'),
    ensures
        on_one_line(command) == command,
{
    crate::text::lemma_find(command, '\n');
    assert(split(command, '\n') =~= seq![command]);
}

/// A command of two lines is shown with a sign between them.
pub proof fn law_two_lines(a: Seq<char>, b: Seq<char>)
    requires
        !a.contains('\n'),
        !b.contains('\n'),
    ensures
        on_one_line(a + seq!['\n'] + b) == a + " ⏎ "@ + b,
{
    crate::text::lemma_split_concat(a, '\n', b);
    crate::text::lemma_find(a, '\n');
    crate::text::lemma_find(b, '\n');
    let parts = split(a + seq!['\n'] + b, '\n');
    assert(parts =~= seq![a, b]);
    assert(parts.drop_last() =~= seq![a]);
    reveal_with_fuel(joined, 3);
}

/// The version stands where the words have a place for it.
pub proof fn law_version_named(head: Seq<char>, v: Seq<char>, rest: Seq<char>)
    requires
        !head.contains('{'),
        !rest.contains('{'),
    ensures
        versioned(head + "{v}"@ + rest, v) == head + v + rest,
{
    reveal_strlit("{v}");
    crate::text_laws::law_substituted(head, "{v}"@, v, rest);
    crate::text_laws::law_substituted(rest, "{v}"@, v, Seq::empty());
}

/// A search keeps its place in the text; in the list the arrows move it.
pub proof fn law_search_arrows(s: SearchModel, up: bool, down: bool, count: usize)
    ensures
        s.text ==> s.arrowed(up, down, count) == s,
        !s.text ==> s.arrowed(up, down, count).selected == crate::search::moved(
            s.selected,
            up,
            down,
            count,
        ),
        s.arrowed(up, down, count).query == s.query,
        s.arrowed(up, down, count).entries == s.entries,
{
}

/// Opening a search leaves the one before it, unless it only goes over from the one kind to
/// the other in the same pane.
pub proof fn law_search_left(m: AppModel, index: usize, pane: PaneId, text: bool)
    ensures
        m.history_search is None ==> m.search_left(index, pane, text) is None,
        m.history_search matches Some(s) ==> (s.tab == index && s.pane == pane && s.text != text
            ==> m.search_left(index, pane, text) is None) && (s.tab != index || s.pane != pane
            || s.text == text ==> m.search_left(index, pane, text) == Some((s.tab, s.pane))),
{
}

/// What is dragged is the row of its own id.
pub proof fn law_dragged_row(c: ConfigModel, id: u128, g: Option<usize>, i: usize)
    requires
        i < c.groups.len(),
    ensures
        drags(Dragged::Item(id), Row::Item(g, id), c),
        forall|other: u128|
            other != id ==> !(#[trigger] drags(Dragged::Item(id), Row::Item(g, other), c)),
        drags(Dragged::Group(c.groups[i as int].id), Row::Group(i), c),
        c.groups[i as int].id != id ==> !drags(Dragged::Group(id), Row::Group(i), c),
        !drags(Dragged::Item(id), Row::Group(i), c),
        !drags(Dragged::Group(id), Row::Item(g, id), c),
{
}

/// Two actions with one shortcut clash, both of them; an action without one clashes with none.
pub proof fn law_clashes(
    l: Seq<((Modifiers, Seq<char>), ShortcutAction)>,
    i: int,
    j: int,
    a: ShortcutAction,
)
    ensures
        0 <= i < l.len() && 0 <= j < l.len() && l[i].1 != l[j].1 && l[i].0 == l[j].0 ==> clashing(
            l,
            l[i].1,
        ) && clashing(l, l[j].1),
        (forall|k: int| 0 <= k < l.len() ==> (#[trigger] l[k]).1 != a) ==> !clashing(l, a),
{
}

/// Panes that ended leave one after the other, the last one first: the places of the others
/// still hold then.
pub proof fn law_all_exited(
    m: AppModel,
    exited: Seq<(PaneId, usize)>,
    pane: PaneId,
    index: usize,
    seen: Seq<Seq<(PaneId, Seq<char>)>>,
)
    ensures
        m.exiting_all(Seq::empty(), seen) == m,
        m.exiting_all(exited.push((pane, index)), seen) == m.exiting(
            pane,
            index,
            seen[index as int],
        ).exiting_all(exited, seen),
{
    assert(exited.push((pane, index)).drop_last() =~= exited);
}

} // verus!
