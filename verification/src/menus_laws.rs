//! What clicks and the entries of the menus ask for.

use crate::actions::ItemModel;
use crate::menu::{all_clicked, clicked, MenuAction, MenuItems};
use crate::menus::{
    entry_enabled, group_clicked, item_asks, item_clicked, item_entries, name_edited, pane_entries,
    tab_clicked, Clicks, ItemEntry, NameEdit, PaneEntry, TabAction,
};
use crate::pane::Direction;
use vstd::prelude::*;

verus! {

/// A click opens an entry of the sidebar, a double click renames a profile or edits a host, a
/// middle click closes its tab.
pub proof fn law_item_clicks(id: u128, item: ItemModel, before: Option<TabAction>)
    ensures
        item_clicked(
            id,
            item,
            Clicks { clicked: true, double_clicked: false, middle_clicked: false },
            None,
        ) == Some(TabAction::OpenItem(id)),
        item.ssh ==> item_clicked(
            id,
            item,
            Clicks { clicked: true, double_clicked: true, middle_clicked: false },
            before,
        ) == Some(TabAction::EditHost(id)),
        !item.ssh ==> item_clicked(
            id,
            item,
            Clicks { clicked: true, double_clicked: true, middle_clicked: false },
            before,
        ) == Some(TabAction::StartItemRename(id)),
        item.open matches Some(i) ==> item_clicked(
            id,
            item,
            Clicks { clicked: false, double_clicked: false, middle_clicked: true },
            before,
        ) == Some(TabAction::Close(i)),
        item_clicked(
            id,
            item,
            Clicks { clicked: false, double_clicked: false, middle_clicked: false },
            before,
        ) == before,
{
}

/// A click shows a tab, a double click renames it, a middle click closes it, and dragging
/// moves it.
pub proof fn law_tab_clicks(i: usize, y: i32, c: Clicks, before: Option<TabAction>)
    ensures
        tab_clicked(
            i,
            Clicks { clicked: true, double_clicked: false, middle_clicked: false },
            None,
            None,
        ) == Some(TabAction::Select(i)),
        tab_clicked(
            i,
            Clicks { clicked: true, double_clicked: true, middle_clicked: false },
            None,
            before,
        ) == Some(TabAction::StartRename(i)),
        tab_clicked(
            i,
            Clicks { clicked: false, double_clicked: false, middle_clicked: true },
            None,
            before,
        ) == Some(TabAction::Close(i)),
        tab_clicked(i, c, Some(y), before) == Some(TabAction::DragOver(i, y)),
        tab_clicked(
            i,
            Clicks { clicked: false, double_clicked: false, middle_clicked: false },
            None,
            before,
        ) == before,
{
}

/// A click opens and closes a group, a double click renames it.
pub proof fn law_group_clicks(id: u128, before: Option<TabAction>)
    ensures
        group_clicked(
            id,
            Clicks { clicked: true, double_clicked: false, middle_clicked: false },
            before,
        ) == Some(TabAction::ToggleGroup(id)),
        group_clicked(
            id,
            Clicks { clicked: true, double_clicked: true, middle_clicked: false },
            before,
        ) == Some(TabAction::StartGroupRename(id)),
        group_clicked(
            id,
            Clicks { clicked: false, double_clicked: false, middle_clicked: false },
            before,
        ) == before,
{
}

/// Escape drops a name; Enter takes it, and so does leaving it.
pub proof fn law_name_keys(enter: bool, left: bool)
    ensures
        name_edited(true, enter, left) == NameEdit::Cancelled,
        name_edited(false, true, left) == NameEdit::Done(true),
        name_edited(false, false, true) == NameEdit::Done(false),
        name_edited(false, false, false) == NameEdit::Going,
{
}

/// The entries of a menu do what they say, to the entry that they belong to.
pub proof fn law_entries(id: u128, item: ItemModel)
    ensures
        item_asks(ItemEntry::Open, id, item) == Some(TabAction::OpenItem(id)),
        item.ssh ==> item_asks(ItemEntry::Edit, id, item) == Some(TabAction::EditHost(id)),
        !item.ssh ==> item_asks(ItemEntry::Edit, id, item) == Some(TabAction::EditProfile(id)),
        item_asks(ItemEntry::Rename, id, item) == Some(TabAction::StartItemRename(id)),
        item_asks(ItemEntry::Files, id, item) == Some(TabAction::OpenFiles(id)),
        item_asks(ItemEntry::RemoveColor, id, item) == Some(TabAction::ItemColor(id, None)),
        item.open matches Some(i) ==> item_asks(ItemEntry::Close, id, item) == Some(
            TabAction::Close(i),
        ) && item_asks(ItemEntry::Reconnect, id, item) == Some(TabAction::Reconnect(i)),
        item.ssh ==> item_asks(ItemEntry::Delete, id, item) == Some(TabAction::DeleteHost(id)),
        !item.ssh ==> item_asks(ItemEntry::Delete, id, item) == Some(TabAction::DeleteProfile(id)),
{
}

/// A profile can be renamed, a host has files; what is open can be closed, and a host that is
/// open connected again; a color that is there can be removed.
pub proof fn law_offered_entries(item: ItemModel)
    ensures
        item_entries(item).contains(ItemEntry::Open),
        item_entries(item).contains(ItemEntry::Edit),
        item_entries(item).contains(ItemEntry::Delete),
        item_entries(item).contains(ItemEntry::Rename) == !item.ssh,
        item_entries(item).contains(ItemEntry::Files) == item.ssh,
        item_entries(item).contains(ItemEntry::Reconnect) == (item.ssh && item.open is Some),
        item_entries(item).contains(ItemEntry::Close) == (item.open is Some),
        item_entries(item).contains(ItemEntry::RemoveColor) == (item.color is Some),
{
    let s = item_entries(item);
    let a: int = if item.ssh && item.open is Some {
        4
    } else {
        3
    };
    assert(s[0] == ItemEntry::Open);
    assert(s[1] == ItemEntry::Edit);
    assert(s.last() == ItemEntry::Delete);
    if item.ssh {
        assert(s[2] == ItemEntry::Files);
        if item.open is Some {
            assert(s[3] == ItemEntry::Reconnect);
        }
    } else {
        assert(s[2] == ItemEntry::Rename);
    }
    if item.color is Some {
        assert(s[a + 2] == ItemEntry::RemoveColor);
    }
    if item.open is Some {
        assert(s[s.len() - 2] == ItemEntry::Close);
    }
}

/// A pane can be split to all four sides; a local one shows its directory, one of a host can
/// be connected again. Copying takes a selection.
pub proof fn law_pane_menu(local: bool, d: Direction, can_copy: bool)
    ensures
        pane_entries(local).contains(PaneEntry::Split(d)),
        pane_entries(local).contains(PaneEntry::Reveal) == local,
        pane_entries(local).contains(PaneEntry::Reconnect) == !local,
        pane_entries(local).contains(PaneEntry::Close),
        pane_entries(local).no_duplicates(),
        entry_enabled(PaneEntry::Copy, can_copy) == can_copy,
        forall|e: PaneEntry| !(e is Copy) ==> #[trigger] entry_enabled(e, can_copy),
{
    let s = pane_entries(local);
    let i: int = match d {
        Direction::Up => 2,
        Direction::Right => 3,
        Direction::Down => 4,
        Direction::Left => 5,
    };
    assert(s[i] == PaneEntry::Split(d));
    assert(s[8] == PaneEntry::Close);
    if local {
        assert(s[6] == PaneEntry::Reveal);
    } else {
        assert(s[6] == PaneEntry::Reconnect);
    }
}

/// The entries of the menu bar do what they say, in the order of the clicks; clicks on
/// anything else do nothing.
pub proof fn law_menu_bar(items: MenuItems, ids: Seq<Seq<char>>, id: Seq<char>)
    requires
        items.settings@ != items.reload@,
        items.settings@ != items.quit@,
        items.reload@ != items.quit@,
    ensures
        clicked(items, items.settings@) == Some(MenuAction::Settings),
        clicked(items, items.reload@) == Some(MenuAction::Reload),
        clicked(items, items.quit@) == Some(MenuAction::Quit),
        id != items.settings@ && id != items.reload@ && id != items.quit@ ==> clicked(items, id)
            is None,
        clicked(items, id) matches Some(a) ==> all_clicked(items, ids.push(id)) == all_clicked(
            items,
            ids,
        ).push(a),
        clicked(items, id) is None ==> all_clicked(items, ids.push(id)) == all_clicked(items, ids),
{
    assert(ids.push(id).drop_last() =~= ids);
}

} // verus!
