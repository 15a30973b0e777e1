//! What the entries of the sidebar and the popups do: names, colors, profiles, saved commands
//! and the search.

use crate::actions::{dragged_to, host_at, is_plain, item_of, plain_places, slot_at};
use crate::app::{lemma_profile_tab_is, AppModel};
use crate::arrange::{host_ids, profile_ids};
use crate::color::Color;
use crate::config::{ConfigModel, ProfileModel, SessionTabModel, SshHostModel};
use crate::find::{has_host, has_profile, host_place, profile_place};
use crate::ids::lemma_place;
use crate::pane::{PaneId, Rect};
use crate::popups::{command_added, command_removed, commands_in, merged, CommandScope};
use crate::profiles::name_used;
use crate::search::{holding, lowered, moved, SearchModel};
use crate::strings::Strings;
use crate::tab::TabModel;
use crate::text::{has_text, lowercase, trimmed, words};
use crate::window_laws::{law_host_found, law_profile_found};
use vstd::prelude::*;

verus! {

/// The first of a list that has an id is the one that is found.
proof fn lemma_profile_at(s: Seq<ProfileModel>, k: int)
    requires
        0 <= k < s.len(),
        forall|j: int| 0 <= j < k ==> (#[trigger] s[j]).id != s[k].id,
    ensures
        profile_place(s, s[k].id) == k,
        has_profile(s, s[k].id),
{
    law_profile_found(s, s[k].id, k);
    let p = profile_place(s, s[k].id);
    if p < k {
        assert(s[p].id != s[k].id);
    }
}

proof fn lemma_host_at(s: Seq<SshHostModel>, k: int)
    requires
        0 <= k < s.len(),
        forall|j: int| 0 <= j < k ==> (#[trigger] s[j]).id != s[k].id,
    ensures
        host_place(s, s[k].id) == k,
        has_host(s, s[k].id),
        host_at(s, s[k].id) == s[k],
{
    law_host_found(s, s[k].id, k);
    let p = host_place(s, s[k].id);
    if p < k {
        assert(s[p].id != s[k].id);
    }
}

/// A color that is chosen for a tab is that of the tab, and of its host where it has one; no
/// other tab or host changes.
pub proof fn law_tab_colored(m: AppModel, i: int, color: Option<Color>, j: int, k: int)
    requires
        0 <= i < m.tabs.len(),
    ensures
        ({
            let r = m.coloring_tab(i, color);
            &&& r.tabs.len() == m.tabs.len()
            &&& r.tabs[i].color == color
            &&& r.tabs[i].name == m.tabs[i].name && r.tabs[i].layout == m.tabs[i].layout
            &&& 0 <= j < m.tabs.len() && j != i ==> r.tabs[j] == m.tabs[j]
            &&& r.config.profiles == m.config.profiles
            &&& r.config.ssh.len() == m.config.ssh.len()
            &&& 0 <= k < m.config.ssh.len() && m.tabs[i].ssh != Some(m.config.ssh[k].id)
                ==> r.config.ssh[k] == m.config.ssh[k]
            &&& 0 <= k < m.config.ssh.len() && m.tabs[i].ssh == Some(m.config.ssh[k].id) && (forall|
                a: int,
            |
                0 <= a < k ==> (#[trigger] m.config.ssh[a]).id != m.config.ssh[k].id)
                ==> r.config.ssh[k] == (SshHostModel { color, ..m.config.ssh[k] })
        }),
{
    if let Some(id) = m.tabs[i].ssh {
        lemma_place(host_ids(m.config.ssh), id);
        let h = host_place(m.config.ssh, id);
        if h < m.config.ssh.len() {
            assert(host_ids(m.config.ssh)[h] == m.config.ssh[h].id);
        }
        if 0 <= k < m.config.ssh.len() && id == m.config.ssh[k].id && (forall|a: int|
            0 <= a < k ==> (#[trigger] m.config.ssh[a]).id != m.config.ssh[k].id) {
            lemma_host_at(m.config.ssh, k);
        }
    }
}

/// A tab that is kept as a profile gets a name, the one it goes by, and keeps its panes; the
/// profile comes last and holds the state of the tab.
pub proof fn law_tab_kept_as_profile(
    m: AppModel,
    index: usize,
    title: Option<Seq<char>>,
    seen: Seq<(PaneId, Seq<char>)>,
    id: u128,
)
    requires
        index < m.tabs.len(),
    ensures
        ({
            let r = m.saving_profile(index, title, seen, id);
            let (old_tab, tab) = (m.tabs[index as int], r.tabs[index as int]);
            &&& tab.profile == Some(id)
            &&& tab.name == Some(old_tab.called(title))
            &&& tab.color == old_tab.color
            &&& tab.layout == old_tab.layout && tab.running == old_tab.running
            &&& r.config.profiles.len() == m.config.profiles.len() + 1
            &&& r.config.profiles.drop_last() == m.config.profiles
            &&& r.config.profiles.last().id == id
            &&& r.config.profiles.last().tab == tab.snapshot()
            &&& r.config.profiles.last().commands.len() == 0
            &&& r.tabs.len() == m.tabs.len()
        }),
{
    assert(m.saving_profile(index, title, seen, id).config.profiles.drop_last()
        =~= m.config.profiles);
}

/// The name that is typed for the tab of a host is that of the host, too; an empty one
/// leaves the host its name.
pub proof fn law_host_tab_named(
    m: AppModel,
    i: usize,
    text: Seq<char>,
    title: Option<Seq<char>>,
    seen: Seq<(PaneId, Seq<char>)>,
    id: u128,
    k: int,
)
    requires
        i < m.tabs.len(),
        0 <= k < m.config.ssh.len(),
        m.tabs[i as int].ssh == Some(m.config.ssh[k].id),
        forall|a: int| 0 <= a < k ==> (#[trigger] m.config.ssh[a]).id != m.config.ssh[k].id,
    ensures
        ({
            let r = m.naming_tab(i, text, title, seen, id);
            &&& trimmed(text).len() > 0 ==> r.tabs[i as int].name == Some(trimmed(text))
                && r.config.ssh[k].name == trimmed(text) && r.config.ssh[k].host
                == m.config.ssh[k].host
            &&& trimmed(text).len() == 0 ==> r.config == m.config
            &&& r.config.profiles == m.config.profiles
        }),
{
    lemma_host_at(m.config.ssh, k);
}

/// What starts a name over is the name that the tab goes by; what drops it changes nothing.
pub proof fn law_rename_started(m: AppModel, i: usize, title: Option<Seq<char>>)
    requires
        i < m.tabs.len(),
    ensures
        m.rename_started(i, title).rename matches Some(r) && r.tab == i && r.text
            == m.tabs[i as int].called(title) && r.error is None,
        m.rename_started(i, title).tabs == m.tabs,
        m.rename_dropped().rename is None,
        m.rename_dropped().tabs == m.tabs,
        m.rename_dropped().config == m.config,
{
}

/// A profile that is deleted is gone, with what was closed of it; its tab stays open,
/// without a profile, and everything else stays.
pub proof fn law_profile_deleted(m: AppModel, id: u128, i: int, p: ProfileModel, c: SessionTabModel)
    ensures
        m.without_profile(id).config.profiles.contains(p) <==> m.config.profiles.contains(p) && p.id
            != id,
        m.without_profile(id).closed.contains(c) <==> m.closed.contains(c) && c.profile != Some(id),
        m.without_profile(id).tabs.len() == m.tabs.len(),
        m.without_profile(id).config.ssh == m.config.ssh,
        0 <= i < m.tabs.len() ==> {
            let tab = m.without_profile(id).tabs[i];
            &&& tab.profile == if m.tabs[i].profile == Some(id) {
                None
            } else {
                m.tabs[i].profile
            }
            &&& tab.name == m.tabs[i].name && tab.color == m.tabs[i].color && tab.layout
                == m.tabs[i].layout
        },
{
    broadcast use vstd::seq_lib::group_filter_ensures;

    let f = crate::profiles::other_profile(id);
    let kept = m.config.profiles.filter(f);
    if kept.contains(p) {
        m.config.profiles.lemma_filter_contains_rev(f, p);
        let k = choose|k: int| 0 <= k < kept.len() && kept[k] == p;
        assert(f(kept[k]));
    }
    if m.config.profiles.contains(p) && p.id != id {
        let k = choose|k: int| 0 <= k < m.config.profiles.len() && m.config.profiles[k] == p;
        assert(f(m.config.profiles[k]));
    }
    let g = crate::app::not_of(Some(id));
    let left = m.closed.filter(g);
    if left.contains(c) {
        m.closed.lemma_filter_contains_rev(g, c);
        let k = choose|k: int| 0 <= k < left.len() && left[k] == c;
        assert(g(left[k]));
    }
    if m.closed.contains(c) && c.profile != Some(id) {
        let k = choose|k: int| 0 <= k < m.closed.len() && m.closed[k] == c;
        assert(g(m.closed[k]));
    }
}

/// The name of a profile is that of its tab, too. No other profile or tab changes, and
/// neither does anything else of this one.
pub proof fn law_profile_renamed(m: AppModel, id: u128, name: Seq<char>, i: int, k: int)
    ensures
        ({
            let r = m.renaming_profile(id, name);
            &&& r.config.profiles.len() == m.config.profiles.len()
            &&& 0 <= k < m.config.profiles.len() && m.config.profiles[k].id == id && (forall|a: int|
                0 <= a < k ==> (#[trigger] m.config.profiles[a]).id != id)
                ==> r.config.profiles[k].tab.name == Some(name) && r.config.profiles[k].tab.color
                == m.config.profiles[k].tab.color && r.config.profiles[k].tab.layout
                == m.config.profiles[k].tab.layout && r.config.profiles[k].id == id
                && r.config.profiles[k].commands == m.config.profiles[k].commands
            &&& 0 <= k < m.config.profiles.len() && m.config.profiles[k].id != id
                ==> r.config.profiles[k] == m.config.profiles[k]
            &&& 0 <= i < m.tabs.len() && m.tabs[i].profile == Some(id) ==> r.tabs[i].name == Some(
                name,
            ) && r.tabs[i].layout == m.tabs[i].layout && r.tabs[i].color == m.tabs[i].color
            &&& 0 <= i < m.tabs.len() && m.tabs[i].profile != Some(id) ==> r.tabs[i] == m.tabs[i]
        }),
{
    lemma_place(profile_ids(m.config.profiles), id);
    let p = profile_place(m.config.profiles, id);
    if p < m.config.profiles.len() {
        assert(profile_ids(m.config.profiles)[p] == m.config.profiles[p].id);
    }
    if 0 <= k < m.config.profiles.len() && m.config.profiles[k].id == id && (forall|a: int|
        0 <= a < k ==> (#[trigger] m.config.profiles[a]).id != id) {
        lemma_profile_at(m.config.profiles, k);
    }
}

/// The color of a profile or a host is that of its tabs, too; no other tab changes.
pub proof fn law_item_colored(m: AppModel, id: u128, color: Option<Color>, i: int, k: int)
    ensures
        ({
            let r = m.coloring_item(id, color);
            &&& 0 <= k < m.config.profiles.len() && m.config.profiles[k].id == id && (forall|a: int|
                0 <= a < k ==> (#[trigger] m.config.profiles[a]).id != id)
                ==> r.config.profiles[k].tab.color == color && r.config.profiles[k].tab.name
                == m.config.profiles[k].tab.name
            &&& 0 <= k < m.config.profiles.len() && m.config.profiles[k].id != id
                ==> r.config.profiles[k] == m.config.profiles[k]
            &&& 0 <= k < m.config.ssh.len() && m.config.ssh[k].id == id && (forall|a: int|
                0 <= a < k ==> (#[trigger] m.config.ssh[a]).id != id) ==> r.config.ssh[k]
                == (SshHostModel { color, ..m.config.ssh[k] })
            &&& 0 <= k < m.config.ssh.len() && m.config.ssh[k].id != id ==> r.config.ssh[k]
                == m.config.ssh[k]
            &&& r.tabs.len() == m.tabs.len()
            &&& 0 <= i < m.tabs.len() && (m.tabs[i].profile == Some(id) || m.tabs[i].ssh == Some(id))
                ==> r.tabs[i].color == color && r.tabs[i].name == m.tabs[i].name
            &&& 0 <= i < m.tabs.len() && m.tabs[i].profile != Some(id) && m.tabs[i].ssh != Some(id)
                ==> r.tabs[i] == m.tabs[i]
        }),
{
    lemma_place(profile_ids(m.config.profiles), id);
    let p = profile_place(m.config.profiles, id);
    if p < m.config.profiles.len() {
        assert(profile_ids(m.config.profiles)[p] == m.config.profiles[p].id);
    }
    lemma_place(host_ids(m.config.ssh), id);
    let h = host_place(m.config.ssh, id);
    if h < m.config.ssh.len() {
        assert(host_ids(m.config.ssh)[h] == m.config.ssh[h].id);
    }
    if 0 <= k < m.config.profiles.len() && m.config.profiles[k].id == id && (forall|a: int|
        0 <= a < k ==> (#[trigger] m.config.profiles[a]).id != id) {
        lemma_profile_at(m.config.profiles, k);
    }
    if 0 <= k < m.config.ssh.len() && m.config.ssh[k].id == id && (forall|a: int|
        0 <= a < k ==> (#[trigger] m.config.ssh[a]).id != id) {
        lemma_host_at(m.config.ssh, k);
    }
}

/// A name counts as used if another profile has it.
pub proof fn law_name_used(profiles: Seq<ProfileModel>, id: Option<u128>, name: Seq<char>, i: int)
    requires
        0 <= i < profiles.len(),
        profiles[i].tab.name == Some(name),
    ensures
        Some(profiles[i].id) != id ==> name_used(profiles, id, name),
        profiles.len() == 1 && Some(profiles[i].id) == id ==> !name_used(profiles, id, name),
        name_used(profiles, None, name),
{
    assert(Some(profiles[i].id) != None::<u128>);
}

/// The name of a profile is typed over its own; one that is empty or used is refused, and
/// told if it was confirmed.
pub proof fn law_item_renamed(m: AppModel, id: u128, text: Seq<char>, confirmed: bool, t: Strings)
    ensures
        m.item_rename_started(id, t.untitled@).item_rename matches Some(r) ==> (has_profile(
            m.config.profiles,
            id,
        ) || has_host(m.config.ssh, id)) ==> r.id == id && Some(r.text) == m.item_name(
            id,
            t.untitled@,
        ) && r.error is None,
        trimmed(text).len() == 0 || name_used(m.config.profiles, Some(id), trimmed(text)) ==> {
            let r = m.item_renamed(id, text, confirmed, t);
            &&& r.config == m.config && r.tabs == m.tabs
            &&& !confirmed ==> r.item_rename is None
            &&& confirmed && m.item_rename is Some ==> r.item_rename is Some && r.item_rename->0.error
                is Some && r.item_rename->0.text == m.item_rename->0.text
        },
        trimmed(text).len() > 0 && !name_used(m.config.profiles, Some(id), trimmed(text)) ==> {
            let r = m.item_renamed(id, text, confirmed, t);
            &&& r.config == m.renaming_profile(id, trimmed(text)).config
            &&& r.tabs == m.renaming_profile(id, trimmed(text)).tabs
            &&& r.item_rename is None
        },
        m.item_name_refused(id, Seq::empty(), t) == Some(t.host_required@),
{
}

/// The name of a group is typed over its own; an empty one is not taken.
pub proof fn law_group_renamed(m: AppModel, id: u128, text: Seq<char>, i: int)
    requires
        0 <= i < m.config.groups.len(),
        m.config.groups[i].id == id,
        forall|a: int| 0 <= a < i ==> (#[trigger] m.config.groups[a]).id != id,
    ensures
        m.group_rename_started(id).group_rename matches Some(r) && r.0 == id && r.1
            == m.config.groups[i].name,
        trimmed(text).len() == 0 ==> m.group_renamed(id, text).config == m.config,
        trimmed(text).len() > 0 ==> m.group_renamed(id, text).config.groups[i].name == trimmed(text)
            && m.group_renamed(id, text).config.groups[i].items == m.config.groups[i].items
            && m.group_renamed(id, text).config.groups[i].id == id,
        m.group_renamed(id, text).group_rename is None,
        m.group_renamed(id, text).tabs == m.tabs,
{
    crate::sidebar_laws::law_group_found(m.config.groups, id, i);
    let g = crate::find::group_place(m.config.groups, id);
    if g < i {
        assert(m.config.groups[g].id != id);
    }
}

/// A new group comes last, and its name is typed over at once.
pub proof fn law_group_added(m: AppModel, id: u128, name: Seq<char>, local: bool, item: u128)
    ensures
        ({
            let r = m.group_added(id, name, local);
            &&& r.config.groups.len() == m.config.groups.len() + 1
            &&& r.config.groups.drop_last() == m.config.groups
            &&& r.config.groups.last().id == id && r.config.groups.last().name == name
            &&& r.config.groups.last().local == local && r.config.groups.last().items.len() == 0
            &&& r.group_rename matches Some(g) && g.0 == id && g.1 == name
            &&& r.config.ungrouped == m.config.ungrouped
        }),
        m.group_added_with(id, name, item).group_rename matches Some(g) && g.0 == id && g.1 == name,
        m.group_added_with(id, name, item).config.groups.last().id == id,
        m.group_added_with(id, name, item).config.groups.last().items == seq![item],
{
    assert(m.group_added(id, name, local).config.groups.drop_last() =~= m.config.groups);
}

/// A click opens a profile as a profile and a host as a host; both are shown by their name
/// and color, and with the tab that is open of them.
pub proof fn law_items(m: AppModel, id: u128, address: Seq<char>, t: Strings, k: int)
    requires
        m.tabs.len() <= usize::MAX,
    ensures
        has_profile(m.config.profiles, id) ==> m.opening_item(id) == m.opening_profile(id),
        !has_profile(m.config.profiles, id) ==> m.opening_item(id) == m.opening_ssh(id),
        0 <= k < m.config.profiles.len() && m.config.profiles[k].id == id && (forall|a: int|
            0 <= a < k ==> (#[trigger] m.config.profiles[a]).id != id) ==> (item_of(
            m,
            id,
            address,
            t,
        ) matches Some(item) && !item.ssh && item.color == m.config.profiles[k].tab.color && (
        m.config.profiles[k].tab.name matches Some(n) ==> item.name == n) && (item.open matches Some(
            j,
        ) ==> m.tabs[j as int].profile == Some(id)) && (item.open is None ==> forall|j: int|
            0 <= j < m.tabs.len() ==> (#[trigger] m.tabs[j]).profile != Some(id))),
        !has_profile(m.config.profiles, id) && 0 <= k < m.config.ssh.len() && m.config.ssh[k].id
            == id && (forall|a: int| 0 <= a < k ==> (#[trigger] m.config.ssh[a]).id != id)
            ==> (item_of(m, id, address, t) matches Some(item) && item.ssh && item.name
            == m.config.ssh[k].name && item.color == m.config.ssh[k].color && item.hint == address
            && m.item_name(id, t.untitled@) == Some(m.config.ssh[k].name)),
        !has_profile(m.config.profiles, id) && !has_host(m.config.ssh, id) ==> item_of(
            m,
            id,
            address,
            t,
        ) is None && m.item_name(id, t.untitled@) is None,
{
    lemma_profile_tab_is(m.tabs, id);
    if 0 <= k < m.config.profiles.len() && m.config.profiles[k].id == id && (forall|a: int|
        0 <= a < k ==> (#[trigger] m.config.profiles[a]).id != id) {
        lemma_profile_at(m.config.profiles, k);
    }
    if 0 <= k < m.config.ssh.len() && m.config.ssh[k].id == id && (forall|a: int|
        0 <= a < k ==> (#[trigger] m.config.ssh[a]).id != id) {
        lemma_host_at(m.config.ssh, k);
    }
}

/// A dragged tab goes to the first slot that the pointer is in, and nowhere from its own.
pub proof fn law_tab_dragged(rects: Seq<(usize, Rect)>, i: usize, y: i32, from: int)
    requires
        0 <= from,
    ensures
        dragged_to(rects, i, y) != Some(i),
        slot_at(rects, y, from) matches Some(to) ==> exists|k: int|
            from <= k < rects.len() && (#[trigger] rects[k]).0 == to && rects[k].1.top <= y
                <= rects[k].1.bottom + 0x800,
        slot_at(rects, y, from) is None ==> forall|k: int|
            from <= k < rects.len() ==> !((#[trigger] rects[k]).1.top <= y <= rects[k].1.bottom
                + 0x800),
    decreases rects.len() - from,
{
    if from < rects.len() {
        law_tab_dragged(rects, i, y, from + 1);
        assert(rects[from].1.top <= y <= rects[from].1.bottom + 0x800 ==> slot_at(rects, y, from)
            == Some(rects[from].0));
    }
}

/// The plain tabs are those without a host and a profile, in their order.
pub proof fn law_plain_tabs(tabs: Seq<TabModel>, n: nat, i: int)
    requires
        n <= tabs.len() <= usize::MAX,
    ensures
        plain_places(tabs, n).contains(i as usize) && 0 <= i < n ==> tabs[i].ssh is None
            && tabs[i].profile is None,
        0 <= i < n && tabs[i].ssh is None && tabs[i].profile is None ==> plain_places(
            tabs,
            n,
        ).contains(i as usize),
        forall|k: int| 0 <= k < plain_places(tabs, n).len() ==> #[trigger] plain_places(tabs, n)[k] < n,
        forall|a: int, b: int|
            0 <= a < b < plain_places(tabs, n).len() ==> #[trigger] plain_places(tabs, n)[a]
                < #[trigger] plain_places(tabs, n)[b],
    decreases n,
{
    if n > 0 {
        law_plain_tabs(tabs, (n - 1) as nat, i);
        let rest = plain_places(tabs, (n - 1) as nat);
        let all = plain_places(tabs, n);
        if is_plain(tabs[n - 1]) {
            assert(all.last() == n - 1);
            if rest.contains(i as usize) {
                let k = choose|k: int| 0 <= k < rest.len() && rest[k] == i as usize;
                assert(all[k] == i as usize);
            }
            if 0 <= i < n && all.contains(i as usize) && i != n - 1 {
                let k = choose|k: int| 0 <= k < all.len() && all[k] == i as usize;
                assert(rest[k] == i as usize);
            }
        } else if i == n - 1 && all.contains(i as usize) {
            let k = choose|k: int| 0 <= k < rest.len() && rest[k] == i as usize;
            assert(rest[k] < n - 1);
        }
    }
}

/// A command is added once, at the end of its list, and to no other list.
pub proof fn law_command_added(c: ConfigModel, scope: CommandScope, command: Seq<char>, list: Seq<Seq<char>>)
    requires
        commands_in(c, scope) == Some(list),
    ensures
        list.contains(command) ==> command_added(c, scope, command) == c,
        !list.contains(command) ==> commands_in(command_added(c, scope, command), scope) == Some(
            list.push(command),
        ),
        !(scope is General) ==> command_added(c, scope, command).commands == c.commands,
        !(scope is Profile) ==> command_added(c, scope, command).profiles == c.profiles,
        !(scope is Host) ==> command_added(c, scope, command).ssh == c.ssh,
        command_added(c, scope, command).settings == c.settings,
{
    let r = command_added(c, scope, command);
    match scope {
        CommandScope::Profile(id) => {
            lemma_place(profile_ids(c.profiles), id);
            assert(profile_ids(r.profiles) =~= profile_ids(c.profiles));
        },
        CommandScope::Host(id) => {
            lemma_place(host_ids(c.ssh), id);
            assert(host_ids(r.ssh) =~= host_ids(c.ssh));
        },
        CommandScope::General => {},
    }
}

/// A command is taken out of its list alone.
pub proof fn law_command_removed(c: ConfigModel, scope: CommandScope, i: int, list: Seq<Seq<char>>)
    requires
        commands_in(c, scope) == Some(list),
    ensures
        0 <= i < list.len() ==> commands_in(command_removed(c, scope, i), scope) == Some(
            list.remove(i),
        ),
        !(0 <= i < list.len()) ==> command_removed(c, scope, i) == c,
        !(scope is General) ==> command_removed(c, scope, i).commands == c.commands,
        !(scope is Profile) ==> command_removed(c, scope, i).profiles == c.profiles,
        !(scope is Host) ==> command_removed(c, scope, i).ssh == c.ssh,
{
    let r = command_removed(c, scope, i);
    match scope {
        CommandScope::Profile(id) => {
            lemma_place(profile_ids(c.profiles), id);
            assert(profile_ids(r.profiles) =~= profile_ids(c.profiles));
        },
        CommandScope::Host(id) => {
            lemma_place(host_ids(c.ssh), id);
            assert(host_ids(r.ssh) =~= host_ids(c.ssh));
        },
        CommandScope::General => {},
    }
}

/// The commands of a list are those of all panes, of the profile or of the host that it is
/// of.
pub proof fn law_commands_of(c: ConfigModel, k: int)
    ensures
        commands_in(c, CommandScope::General) == Some(c.commands),
        0 <= k < c.profiles.len() && (forall|a: int|
            0 <= a < k ==> (#[trigger] c.profiles[a]).id != c.profiles[k].id) ==> commands_in(
            c,
            CommandScope::Profile(c.profiles[k].id),
        ) == Some(c.profiles[k].commands),
        0 <= k < c.ssh.len() && (forall|a: int|
            0 <= a < k ==> (#[trigger] c.ssh[a]).id != c.ssh[k].id) ==> commands_in(
            c,
            CommandScope::Host(c.ssh[k].id),
        ) == Some(c.ssh[k].commands),
{
    if 0 <= k < c.profiles.len() && (forall|a: int|
        0 <= a < k ==> (#[trigger] c.profiles[a]).id != c.profiles[k].id) {
        lemma_profile_at(c.profiles, k);
    }
    if 0 <= k < c.ssh.len() && (forall|a: int|
        0 <= a < k ==> (#[trigger] c.ssh[a]).id != c.ssh[k].id) {
        lemma_host_at(c.ssh, k);
    }
}

/// The commands of a tab are those of its host, or else of its profile.
pub proof fn law_scope_of_tab(m: AppModel, index: usize, untitled: Seq<char>)
    requires
        index < m.tabs.len(),
    ensures
        ({
            let tab = m.tabs[index as int];
            &&& tab.ssh is Some && has_host(m.config.ssh, tab.ssh->0) ==> (m.scope(
                index,
                untitled,
            ) matches Some(s) && s.0 == CommandScope::Host(tab.ssh->0))
            &&& tab.ssh is None && tab.profile is Some && has_profile(
                m.config.profiles,
                tab.profile->0,
            ) ==> (m.scope(index, untitled) matches Some(s) && s.0 == CommandScope::Profile(
                tab.profile->0,
            ))
            &&& tab.ssh is None && tab.profile is None ==> m.scope(index, untitled) is None
        }),
{
    let tab = m.tabs[index as int];
    if tab.ssh is Some {
        law_host_found(m.config.ssh, tab.ssh->0, 0);
    }
    if tab.profile is Some {
        law_profile_found(m.config.profiles, tab.profile->0, 0);
    }
}

/// The commands that are offered start with those of the tab, in their order.
pub proof fn law_own_commands_first(own: Seq<Seq<char>>, general: Seq<Seq<char>>, i: int)
    requires
        0 <= i < own.len(),
    ensures
        merged(own, general).len() >= own.len(),
        merged(own, general)[i] == own[i],
    decreases general.len(),
{
    if general.len() > 0 {
        law_own_commands_first(own, general.drop_last(), i);
    }
}

/// What is offered in a tab are its own commands and those of all panes.
pub proof fn law_offered_in_tab(m: AppModel, index: usize, untitled: Seq<char>, x: Seq<char>)
    ensures
        m.config.commands.contains(x) ==> m.offered(index, untitled).contains(x),
        m.scope(index, untitled) matches Some(s) ==> (commands_in(m.config, s.0) matches Some(list)
            ==> (list.contains(x) ==> m.offered(index, untitled).contains(x))),
        m.scope(index, untitled) is None ==> m.offered(index, untitled).contains(x)
            == m.config.commands.contains(x),
{
    let own = match m.scope(index, untitled) {
        Some(s) => match commands_in(m.config, s.0) {
            Some(list) => list,
            None => Seq::empty(),
        },
        None => Seq::empty(),
    };
    crate::popups::law_offered(own, m.config.commands, x);
}

/// A typed command goes to the list that was chosen, without the spaces around it, and the
/// line is empty again. Nothing typed adds nothing.
pub proof fn law_typed_command(m: AppModel, untitled: Seq<char>)
    requires
        m.commands_menu is Some,
    ensures
        ({
            let menu = m.commands_menu->0;
            let r = m.adding_command(untitled);
            &&& trimmed(menu.new_command).len() == 0 ==> r == m
            &&& trimmed(menu.new_command).len() > 0 ==> {
                &&& r.commands_menu matches Some(c) && c.new_command.len() == 0 && c.pane == menu.pane
                &&& !menu.for_tab ==> r.config == command_added(
                    m.config,
                    CommandScope::General,
                    trimmed(menu.new_command),
                )
                &&& menu.for_tab ==> (m.scope(menu.tab, untitled) matches Some(s) ==> r.config
                    == command_added(m.config, s.0, trimmed(menu.new_command)))
                &&& m.scope(menu.tab, untitled) is None ==> r.config == command_added(
                    m.config,
                    CommandScope::General,
                    trimmed(menu.new_command),
                )
            }
        }),
{
}

/// The commands of a pane are shown and hidden in turn.
pub proof fn law_commands_toggled(m: AppModel, pane: PaneId)
    ensures
        m.commands_menu is None ==> (m.commands_toggled(pane).commands_menu matches Some(c) && c.pane
            == pane && c.tab == m.active && c.for_tab && c.new_command.len() == 0),
        m.commands_menu is None ==> m.commands_toggled(pane).commands_toggled(
            pane,
        ).commands_menu is None,
        m.commands_toggled(pane).history_search is None,
        m.commands_toggled(pane).tabs == m.tabs,
        forall|outside: bool, removed: bool, over: bool|
            (#[trigger] m.commands_left(true, false, outside, removed, over)).commands_menu is None,
        forall|outside: bool, removed: bool, over: bool|
            (#[trigger] m.commands_left(false, true, outside, removed, over)).commands_menu is None,
        m.commands_left(false, false, true, false, false).commands_menu is None,
        m.commands_left(false, false, false, false, false) == m,
        m.commands_left(false, false, true, true, false) == m,
        m.commands_left(false, false, true, false, true) == m,
{
}

/// A search is opened over its pane with the commands that were typed there, the newest
/// first, none chosen but the first; over the pane of a host it searches the text.
pub proof fn law_search_opened(
    m: AppModel,
    index: usize,
    pane: PaneId,
    text: bool,
    entries: Seq<Seq<char>>,
)
    requires
        index < m.tabs.len(),
        !m.searches(index, pane),
    ensures
        m.opening_search(index, pane, text, entries).history_search matches Some(s) && s.tab == index
            && s.pane == pane && s.query.len() == 0 && s.selected == 0 && (m.tabs[index as int].ssh
            is None ==> s.entries == entries && s.text == text && s.local) && (
        m.tabs[index as int].ssh is Some ==> s.entries.len() == 0 && s.text && !s.local),
        m.opening_search(index, pane, text, entries).tabs == m.tabs,
        m.searched() matches Some(p) ==> m.history_search is Some && p.0 == m.history_search->0.tab
            && p.1 == m.history_search->0.pane,
{
}

proof fn lemma_holding(
    entries: Seq<Seq<char>>,
    lower: Seq<Seq<char>>,
    words: Seq<Seq<char>>,
    n: nat,
    i: int,
)
    requires
        0 <= i < n,
        crate::search::has_all(lower[i], words),
    ensures
        holding(entries, lower, words, n).contains(entries[i]),
    decreases n,
{
    let rest = holding(entries, lower, words, (n - 1) as nat);
    let all = holding(entries, lower, words, n);
    if i < n - 1 {
        lemma_holding(entries, lower, words, (n - 1) as nat, i);
        let k = choose|k: int| 0 <= k < rest.len() && rest[k] == entries[i];
        assert(all[k] == entries[i]);
    } else {
        assert(all.last() == entries[i]);
    }
}

/// Every command that holds all the words is found, in upper or lower case, as long as
/// there are not too many.
pub proof fn law_all_found(m: SearchModel, w: Seq<Seq<char>>, i: int)
    requires
        m.lower == lowered(m.entries),
        0 <= i < m.entries.len(),
        m.entries.len() <= 200,
        forall|k: int| 0 <= k < w.len() ==> has_text(lowercase(m.entries[i]), #[trigger] w[k]),
    ensures
        m.matching(w).contains(m.entries[i]),
{
    lemma_holding(m.entries, m.lower, w, m.count(), i);
    lemma_holding_len(m.entries, m.lower, w, m.count());
}

proof fn lemma_holding_len(
    entries: Seq<Seq<char>>,
    lower: Seq<Seq<char>>,
    words: Seq<Seq<char>>,
    n: nat,
)
    ensures
        holding(entries, lower, words, n).len() <= n,
    decreases n,
{
    if n > 0 {
        lemma_holding_len(entries, lower, words, (n - 1) as nat);
    }
}

/// The arrows go up and down the list by one and stop at its ends.
pub proof fn law_arrows(selected: usize, count: usize)
    requires
        selected < count,
    ensures
        selected > 0 ==> moved(selected, true, false, count) == selected - 1,
        moved(0, true, false, count) == 0,
        selected + 1 < count ==> moved(selected, false, true, count) == selected + 1,
        moved((count - 1) as usize, false, true, count) == count - 1,
        moved(selected, false, false, count) == selected,
{
}

/// Return chooses the marked command of the list, and runs it only where that was asked; a
/// search in the text chooses none.
pub proof fn law_search_choice(s: SearchModel, enter: bool, run: bool)
    ensures
        s.text ==> s.choice(enter, run) is None,
        !enter && !run ==> s.choice(enter, run) is None,
        s.choice(enter, run) matches Some(c) ==> s.selected < s.listed().len() && c.0
            == s.listed()[s.selected as int] && c.1 == run,
        !s.text && (enter || run) && s.selected < s.listed().len() ==> s.choice(enter, run) is Some,
        !s.text ==> forall|up: bool, down: bool, newer: bool, e: bool|
            (#[trigger] s.stepping(up, down, newer, e)) is None,
        s.text ==> s.stepping(true, false, false, false) == Some(true) && s.stepping(
            false,
            true,
            false,
            false,
        ) == Some(false) && s.stepping(false, false, false, true) == Some(true) && s.stepping(
            false,
            false,
            true,
            true,
        ) == Some(false) && s.stepping(false, false, false, false) is None,
{
}

/// Another query starts at the top of the list; in the text it is looked for at once. Going
/// over to the text looks for the query there, and going back for nothing.
pub proof fn law_search_query(s: SearchModel, query: Seq<char>, t: Strings)
    ensures
        s.queried(query).query == query,
        s.queried(query).selected == 0,
        s.queried(query).entries == s.entries,
        s.text ==> s.found_after_query(query) == Some(query),
        !s.text ==> s.found_after_query(query) is None,
        !s.text ==> s.switched(true).text && s.found_after_switch(true) == Some(s.query),
        s.text ==> !s.switched(false).text && s.found_after_switch(false) == Some(
            Seq::<char>::empty(),
        ),
        s.switched(s.text) == s,
        s.switched(true).query == s.query,
        s.query.len() == 0 ==> s.status_shown(t).len() == 0,
        s.query.len() > 0 && s.status.1 == 0 ==> s.status_shown(t) == t.search_none@,
        s.query.len() > 0 && s.status.1 > 0 ==> crate::text::begins(
            s.status_shown(t),
            crate::text::decimal(s.status.0 as nat),
        ) && crate::text::ends(s.status_shown(t), crate::text::decimal(s.status.1 as nat)),
{
    let a = crate::text::decimal(s.status.0 as nat);
    let b = crate::text::decimal(s.status.1 as nat);
    let r = a + " / "@ + b;
    assert(r.take(a.len() as int) =~= a);
    assert(r.skip(r.len() - b.len()) =~= b);
}

/// The commands that are found stand in the order of the list, the first ones if there are
/// too many.
pub proof fn law_found_in_order(
    m: SearchModel,
    w: Seq<Seq<char>>,
    n: nat,
    i: int,
)
    requires
        0 <= i < m.matching(w).len(),
    ensures
        m.matching(w)[i] == holding(m.entries, m.lower, w, m.count())[i],
        (forall|k: int| 0 <= k < w.len() ==> has_text(m.lower[n as int], #[trigger] w[k]))
            ==> holding(m.entries, m.lower, w, n + 1) == holding(m.entries, m.lower, w, n).push(
            m.entries[n as int],
        ),
        (exists|k: int| 0 <= k < w.len() && !has_text(m.lower[n as int], #[trigger] w[k]))
            ==> holding(m.entries, m.lower, w, n + 1) == holding(m.entries, m.lower, w, n),
{
}

/// A command is listed if it holds every word of the query, in upper or lower case, and only
/// then.
pub proof fn law_query_words(m: SearchModel, i: int)
    requires
        m.lower == lowered(m.entries),
        0 <= i < m.entries.len() <= 200,
    ensures
        (forall|k: int|
            0 <= k < words(m.query).len() ==> has_text(
                lowercase(m.entries[i]),
                lowercase(#[trigger] words(m.query)[k]),
            )) ==> m.listed().contains(m.entries[i]),
        forall|j: int, k: int|
            0 <= j < m.listed().len() && 0 <= k < words(m.query).len() ==> has_text(
                lowercase(#[trigger] m.listed()[j]),
                lowercase(#[trigger] words(m.query)[k]),
            ),
{
    let w = lowered(words(m.query));
    if forall|k: int|
        0 <= k < words(m.query).len() ==> has_text(
            lowercase(m.entries[i]),
            lowercase(#[trigger] words(m.query)[k]),
        ) {
        assert forall|k: int| 0 <= k < w.len() implies has_text(
            lowercase(m.entries[i]),
            #[trigger] w[k],
        ) by {
            assert(w[k] == lowercase(words(m.query)[k]));
        }
        law_all_found(m, w, i);
    }
    assert forall|j: int, k: int|
        0 <= j < m.listed().len() && 0 <= k < words(m.query).len() implies has_text(
        lowercase(#[trigger] m.listed()[j]),
        lowercase(#[trigger] words(m.query)[k]),
    ) by {
        crate::search::law_matches(m, w, j);
        assert(w[k] == lowercase(words(m.query)[k]));
    }
}

} // verus!
