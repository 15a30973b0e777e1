//! What is noted of the panes of a tab, and the small decisions around it.

use crate::app::{lemma_profile_tab_is, profile_tab, updates, AppModel, CommandsMenuModel};
use crate::closing::{ends_app, last_part};
use crate::color::{color_of, from_number, Color, ColorError};
use crate::config::{ConfigModel, ProfileModel, SettingsModel};
use crate::files::{above, reads_local, FileManagerModel, Side};
use crate::find::has_profile;
use crate::ids::{lemma_place, place};
use crate::menu::{differs, Shown};
use crate::pane::{Node, PaneId};
use crate::paths::seen_from;
use crate::session::theme_changes;
use crate::settings::picks;
use crate::sftp::{joined_path, EventModel, RequestModel};
use crate::sidebar::{is_kind, item_rows, Row};
use crate::tab::{less_pane, other_pane, TabModel};
use crate::text::digits_value;
use crate::transfer::{LocalTree, UploadWalkModel};
use vstd::prelude::*;

verus! {

/// The directory of a pane is the one that was noted last, and that of no other pane.
pub proof fn law_noted(t: TabModel, id: PaneId, cwd: Seq<char>, other: PaneId)
    ensures
        t.noting(id, cwd).cwds.dom().contains(id),
        t.noting(id, cwd).cwds[id] == cwd,
        other != id ==> t.noting(id, cwd).cwds.dom().contains(other) == t.cwds.dom().contains(other)
            && t.noting(id, cwd).cwds[other] == t.cwds[other],
        t.noting(id, cwd).layout == t.layout,
        t.noting(id, cwd).histories == t.histories,
{
}

/// A pane keeps its history; one that has none takes the fresh one, and then keeps it.
pub proof fn law_history_of_pane(t: TabModel, id: PaneId, fresh: u128, again: u128, other: PaneId)
    ensures
        t.histories.dom().contains(id) ==> t.history_of(id, fresh) == t.histories[id],
        !t.histories.dom().contains(id) ==> t.history_of(id, fresh) == fresh,
        t.with_history(id, fresh).history_of(id, again) == fresh,
        other != id ==> t.with_history(id, fresh).history_of(other, again) == t.history_of(
            other,
            again,
        ),
        t.with_history(id, fresh).cwds == t.cwds,
        t.with_history(id, fresh).running == t.running,
{
}

/// A pane in which a shell starts runs, one whose connection ended is dead, and one that was
/// started again is neither dead nor waiting; the other panes stay as they are.
pub proof fn law_pane_states(t: TabModel, id: PaneId, other: PaneId)
    requires
        other != id,
    ensures
        t.with_running(id).running.contains(id),
        t.with_running(id).running.contains(other) == t.running.contains(other),
        t.with_running(id).dead == t.dead,
        t.with_dead(id).dead.contains(id),
        t.with_dead(id).dead.contains(other) == t.dead.contains(other),
        t.with_dead(id).running == t.running,
        t.with_dead(id).layout == t.layout,
        t.with_restarted(id).running.contains(id),
        !t.with_restarted(id).dead.contains(id),
        t.with_restarted(id).dead.contains(other) == t.dead.contains(other),
        !t.with_restarted(id).pending.contains(id),
        t.pending.contains(other) ==> t.with_restarted(id).pending.contains(other),
{
    broadcast use vstd::seq_lib::group_filter_ensures;

    let f = other_pane(id);
    let kept = less_pane(t.pending, id);
    if kept.contains(id) {
        let i = choose|i: int| 0 <= i < kept.len() && kept[i] == id;
        assert(f(kept[i]));
    }
    if t.pending.contains(other) {
        let i = choose|i: int| 0 <= i < t.pending.len() && t.pending[i] == other;
        assert(f(t.pending[i]));
    }
}

/// The files of a tab are shown or hidden as asked; they are opened once and then kept.
pub proof fn law_files_of_tab(t: TabModel, fresh: FileManagerModel, later: FileManagerModel)
    ensures
        t.with_files(true, fresh).show_files,
        !t.with_files(false, fresh).show_files,
        t.files is None ==> t.with_files(true, fresh).files == Some(fresh),
        t.files is Some ==> t.with_files(true, fresh).files == t.files,
        t.with_files(false, fresh).files == t.files,
        t.files is None ==> t.with_files(true, fresh).with_files(true, later).files == Some(fresh),
        t.with_files(true, fresh).layout == t.layout,
{
}

/// A tab keeps its last pane.
pub proof fn law_last_pane(t: TabModel)
    ensures
        t.layout is Leaf ==> !t.can_lose_pane(),
        t.layout is Split ==> t.can_lose_pane(),
{
    if let Node::Split { a, b, .. } = t.layout {
        crate::pane::law_order_holds(*a, 0);
        crate::pane::law_order_holds(*b, 0);
    }
}

/// A pane can be split if it is there, and taken out if it is not alone.
pub proof fn law_pane_can(n: Node, id: PaneId)
    ensures
        n.can_split(id) == n.order().contains(id),
        n is Leaf ==> !n.can_remove(id),
        n is Split ==> n.can_remove(id) == n.order().contains(id),
{
    crate::pane::law_order_holds(n, id);
}

/// The commands of a pane open with an empty line, for the tab.
pub proof fn law_commands_open(tab: usize, pane: PaneId)
    ensures
        ({
            let m = CommandsMenuModel::opened(tab, pane);
            m.tab == tab && m.pane == pane && m.new_command.len() == 0 && m.for_tab
        }),
{
}

/// A state is written back where its profile exists.
pub proof fn law_updates(profiles: Seq<ProfileModel>, id: u128, i: int)
    ensures
        !updates(profiles, None),
        updates(profiles, Some(id)) == has_profile(profiles, id),
        0 <= i < profiles.len() && profiles[i].id == id ==> updates(profiles, Some(id)),
{
    crate::window_laws::law_profile_found(profiles, id, i);
}

/// The menu is drawn again when one of its texts is another.
pub proof fn law_menu_differs(shown: Shown, other: Seq<char>)
    ensures
        !differs(shown, shown.settings@, shown.shortcut@),
        other != shown.settings@ ==> differs(shown, other, shown.shortcut@),
        other != shown.shortcut@ ==> differs(shown, shown.settings@, other),
{
}

/// The app ends where the updated one was started, or everything was put aside; not where
/// that failed.
pub proof fn law_ends_app(error: Seq<char>)
    ensures
        ends_app(None),
        !ends_app(Some(error)),
{
}

/// The theme is applied again when it changes, and settings when they are picked anew.
pub proof fn law_theme_changes(a: ConfigModel, b: ConfigModel, s: SettingsModel)
    ensures
        !theme_changes(a, a),
        a.settings.theme == b.settings.theme ==> !theme_changes(a, b),
        a.settings.theme != b.settings.theme ==> theme_changes(a, b),
        !picks(s, s),
        s != a.settings ==> picks(a.settings, s),
{
}

/// The local folder is read again when a transfer is over.
pub proof fn law_reads_local(e: EventModel, id: u64, result: Result<u64, Seq<char>>)
    ensures
        reads_local(EventModel::Finished { id, result }),
        !(e is Finished) ==> !reads_local(e),
{
}

/// A walk of an upload looks at what it was given last, and at everything once.
pub proof fn law_upload_looks_at(w: UploadWalkModel, t: LocalTree)
    ensures
        w.stack.len() == 0 ==> w.looked_at() is None,
        w.stack.len() > 0 ==> (w.looked_at() matches Some(p) && w.popped().stack.push(p) == w.stack
            && w.stepped(t) == w.popped().met(p, (t.kind)(p), (t.parts)(p), (t.children)(p))),
        w.popped().plan == w.plan,
        w.popped().remote_dir == w.remote_dir,
{
    if w.stack.len() > 0 {
        assert(w.popped().stack.push(w.stack.last()) =~= w.stack);
    }
}

/// Requests are sent in their order while there is a session, and not at all without one.
pub proof fn law_sending(m: FileManagerModel, r: RequestModel)
    ensures
        m.connected ==> m.sending(r).outbox == m.outbox.push(r),
        !m.connected ==> m.sending(r) == m,
        m.sending(r).transfers == m.transfers,
        m.sending(r).local == m.local && m.sending(r).remote == m.remote,
{
}

/// A name stands for a file of the folder that its side shows.
pub proof fn law_paths(m: FileManagerModel, names: Seq<Seq<char>>, i: int)
    requires
        0 <= i < names.len(),
    ensures
        m.path_of(Side::Local, names[i]) == seen_from(m.local.path, names[i], m.platform),
        m.path_of(Side::Remote, names[i]) == joined_path(m.remote.path, names[i]),
        m.paths_of(Side::Local, names).len() == names.len(),
        m.paths_of(Side::Remote, names).len() == names.len(),
        m.paths_of(Side::Local, names)[i] == seen_from(m.local.path, names[i], m.platform),
        m.paths_of(Side::Remote, names)[i] == joined_path(m.remote.path, names[i]),
{
}

/// The folder above a path and its last part make it up.
pub proof fn law_above(dir: Seq<char>, name: Seq<char>)
    requires
        !name.contains('/'),
    ensures
        dir.len() > 0 ==> above(dir + seq!['/'] + name) == dir,
        above(seq!['/'] + name) == seq!['/'],
        above(name).len() == 0,
        last_part(dir + seq!['/'] + name) == name,
        last_part(name) == name,
{
    let p = dir + seq!['/'] + name;
    assert forall|j: int| dir.len() < j < p.len() implies #[trigger] p[j] != '/' by {
        assert(p[j] == name[j - dir.len() - 1]);
        assert(name.contains(name[j - dir.len() - 1]));
    }
    crate::text::lemma_last_place_is(p, '/', dir.len() as int);
    assert(p.take(dir.len() as int) =~= dir);
    assert(p.skip(dir.len() as int + 1) =~= name);
    let q = seq!['/'] + name;
    assert forall|j: int| 0 < j < q.len() implies #[trigger] q[j] != '/' by {
        assert(q[j] == name[j - 1]);
        assert(name.contains(name[j - 1]));
    }
    crate::text::lemma_last_place_is(q, '/', 0);
    assert forall|j: int| -1 < j < name.len() implies #[trigger] name[j] != '/' by {
        assert(name.contains(name[j]));
    }
    crate::text::lemma_last_place_is(name, '/', -1);
    assert(name.skip(0) =~= name);
}

/// Six hexadecimal digits are a color, with or without the sign before them; anything else is
/// none.
pub proof fn law_color_read(hex: Seq<char>)
    requires
        hex.len() > 0,
        hex[0] != '#',
        hex[0] != '+',
    ensures
        hex.len() != 6 ==> color_of(hex) is Err,
        digits_value(hex, 16) is None ==> color_of(hex) == Err::<Color, ColorError>(
            ColorError::Number,
        ),
        hex.len() == 6 && digits_value(hex, 16) is Some && digits_value(hex, 16)->0 <= 0xffff_ffff
            ==> color_of(hex) == Ok::<Color, ColorError>(
            from_number(digits_value(hex, 16)->0 as int),
        ),
        color_of(seq!['#'] + hex) == color_of(hex),
{
    let s = seq!['#'] + hex;
    assert(s.drop_first() =~= hex);
    reveal_with_fuel(crate::text::drop_front, 2);
}

/// The tab of a profile or a host is the first that has it; where none has, there is none.
pub proof fn law_tab_found(m: AppModel, id: u128, i: int)
    requires
        0 <= i < m.tabs.len(),
        m.tabs[i].profile == Some(id),
    ensures
        profile_tab(m.tabs, id) <= i,
        m.tabs[profile_tab(m.tabs, id)].profile == Some(id),
{
    lemma_profile_tab_is(m.tabs, id);
}

/// The place of an id is the first that holds it.
pub proof fn law_place(s: Seq<u128>, id: u128, i: int)
    requires
        0 <= i < s.len(),
        s[i] == id,
    ensures
        0 <= place(s, id) <= i,
        s[place(s, id)] == id,
{
    lemma_place(s, id);
}

/// A group counts what it holds of its kind.
pub proof fn law_group_counts(
    c: ConfigModel,
    items: Seq<u128>,
    x: u128,
    group: Option<usize>,
    local: bool,
)
    ensures
        item_rows(c, Seq::empty(), group, local).len() == 0,
        is_kind(c, x, local) ==> item_rows(c, items.push(x), group, local) == item_rows(
            c,
            items,
            group,
            local,
        ).push(Row::Item(group, x)),
        !is_kind(c, x, local) ==> item_rows(c, items.push(x), group, local) == item_rows(
            c,
            items,
            group,
            local,
        ),
        is_kind(c, x, true) == has_profile(c.profiles, x),
        is_kind(c, x, false) == crate::find::has_host(c.ssh, x),
{
    assert(items.push(x).drop_last() =~= items);
}

} // verus!
