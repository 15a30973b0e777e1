//! Menus and clicks of the sidebar and of panes, as the actions they ask for.

use crate::actions::{Item, ItemModel};
use crate::color::Color;
use crate::pane::Direction;
use vstd::prelude::*;

verus! {

/// What the sidebar asks for.
#[derive(Clone, Copy, PartialEq, Eq, Structural, Debug)]
pub enum TabAction {
    Select(usize),
    Close(usize),
    New,
    StartRename(usize),
    /// Commit the rename; true when confirmed with Enter (a refused name then keeps the editor open).
    Rename(usize, bool),
    SetColor(usize, Option<Color>),
    DragOver(usize, i32),
    Split(usize, Direction),
    DeleteProfile(u128),
    NewHost,
    EditHost(u128),
    DeleteHost(u128),
    OpenItem(u128),
    ItemColor(u128, Option<Color>),
    StartItemRename(u128),
    ToggleGroup(u128),
    StartGroupRename(u128),
    /// New group of local profiles (true) or of SSH hosts.
    NewGroup(bool),
    /// New group holding this item.
    NewGroupWith(u128),
    /// Opens the profile editor.
    EditProfile(u128),
    /// Opens an SSH host's tab on its file manager.
    OpenFiles(u128),
    DeleteGroup(u128),
    /// Restart every session of an SSH tab.
    Reconnect(usize),
}

/// A pointer or a key, on a row.
#[derive(Clone, Copy, PartialEq, Eq, Structural, Debug)]
pub struct Clicks {
    pub clicked: bool,
    pub double_clicked: bool,
    pub middle_clicked: bool,
}

/// What clicks on the row of a profile or a host ask for, where something else may
/// have been asked for already.
pub open spec fn item_clicked(
    id: u128,
    item: ItemModel,
    c: Clicks,
    before: Option<TabAction>,
) -> Option<TabAction> {
    if c.middle_clicked && item.open is Some {
        Some(TabAction::Close(item.open->0))
    } else if c.double_clicked {
        Some(
            if item.ssh {
                TabAction::EditHost(id)
            } else {
                TabAction::StartItemRename(id)
            },
        )
    } else if c.clicked && before is None {
        Some(TabAction::OpenItem(id))
    } else {
        before
    }
}

/// What clicks on the row of a profile or a host ask for.
pub fn click_item(id: u128, item: &Item, c: Clicks, before: Option<TabAction>) -> (r: Option<TabAction>)
    ensures
        r == item_clicked(id, item@, c, before),
{
    let mut r = before;
    if c.double_clicked {
        r = Some(
            if item.ssh {
                TabAction::EditHost(id)
            } else {
                TabAction::StartItemRename(id)
            },
        );
    } else if c.clicked {
        if r.is_none() {
            r = Some(TabAction::OpenItem(id));
        }
    }
    if c.middle_clicked {
        if let Some(i) = item.open {
            r = Some(TabAction::Close(i));
        }
    }
    r
}

/// What clicks on the row of a plain tab, or dragging it to a height, ask for.
pub open spec fn tab_clicked(
    i: usize,
    c: Clicks,
    dragged: Option<i32>,
    before: Option<TabAction>,
) -> Option<TabAction> {
    if dragged is Some {
        Some(TabAction::DragOver(i, dragged->0))
    } else if c.middle_clicked {
        Some(TabAction::Close(i))
    } else if c.double_clicked {
        Some(TabAction::StartRename(i))
    } else if c.clicked && before is None {
        Some(TabAction::Select(i))
    } else {
        before
    }
}

/// What clicks on the row of a plain tab, or dragging it to a height, ask for.
pub fn click_tab(i: usize, c: Clicks, dragged: Option<i32>, before: Option<TabAction>) -> (r: Option<
    TabAction,
>)
    ensures
        r == tab_clicked(i, c, dragged, before),
{
    let mut r = before;
    if c.clicked && r.is_none() {
        r = Some(TabAction::Select(i));
    }
    if c.double_clicked {
        r = Some(TabAction::StartRename(i));
    }
    if c.middle_clicked {
        r = Some(TabAction::Close(i));
    }
    if let Some(y) = dragged {
        r = Some(TabAction::DragOver(i, y));
    }
    r
}

/// What clicks on the title of a group ask for.
pub fn click_group(id: u128, c: Clicks, before: Option<TabAction>) -> (r: Option<TabAction>)
    ensures
        r == if c.double_clicked {
            Some(TabAction::StartGroupRename(id))
        } else if c.clicked {
            Some(TabAction::ToggleGroup(id))
        } else {
            before
        },
        r == group_clicked(id, c, before),
{
    if c.double_clicked {
        Some(TabAction::StartGroupRename(id))
    } else if c.clicked {
        Some(TabAction::ToggleGroup(id))
    } else {
        before
    }
}

/// What happens to a name being edited.
#[derive(Clone, Copy, PartialEq, Eq, Structural, Debug)]
pub enum NameEdit {
    /// Editing goes on.
    Going,
    /// The name stays as it was.
    Cancelled,
    /// The name is taken over; true when confirmed with Enter.
    Done(bool),
}

/// What happens to a name being edited: Escape gives it up, Enter confirms it, and
/// leaving the field takes it over.
pub fn name_edit(escape: bool, enter: bool, left: bool) -> (r: NameEdit)
    ensures
        r == if escape {
            NameEdit::Cancelled
        } else if enter {
            NameEdit::Done(true)
        } else if left {
            NameEdit::Done(false)
        } else {
            NameEdit::Going
        },
        r == name_edited(escape, enter, left),
{
    if escape {
        NameEdit::Cancelled
    } else if enter {
        NameEdit::Done(true)
    } else if left {
        NameEdit::Done(false)
    } else {
        NameEdit::Going
    }
}

/// An entry of the menu of a profile or a host.
#[derive(Clone, Copy, PartialEq, Eq, Structural, Debug)]
pub enum ItemEntry {
    Open,
    Edit,
    Rename,
    Files,
    Reconnect,
    MoveTo,
    Colors,
    RemoveColor,
    Close,
    Delete,
}

/// The entries of the menu of a profile or a host.
pub open spec fn item_entries(item: ItemModel) -> Seq<ItemEntry> {
    let first = if item.ssh {
        if item.open is Some {
            seq![ItemEntry::Open, ItemEntry::Edit, ItemEntry::Files, ItemEntry::Reconnect]
        } else {
            seq![ItemEntry::Open, ItemEntry::Edit, ItemEntry::Files]
        }
    } else {
        seq![ItemEntry::Open, ItemEntry::Edit, ItemEntry::Rename]
    };
    let colors = if item.color is Some {
        seq![ItemEntry::MoveTo, ItemEntry::Colors, ItemEntry::RemoveColor]
    } else {
        seq![ItemEntry::MoveTo, ItemEntry::Colors]
    };
    let last = if item.open is Some {
        seq![ItemEntry::Close, ItemEntry::Delete]
    } else {
        seq![ItemEntry::Delete]
    };
    first + colors + last
}

/// The entries of the menu of a profile or a host.
pub fn item_menu(item: &Item) -> (r: Vec<ItemEntry>)
    ensures
        r@ == item_entries(item@),
{
    let mut r: Vec<ItemEntry> = Vec::new();
    r.push(ItemEntry::Open);
    r.push(ItemEntry::Edit);
    if item.ssh {
        r.push(ItemEntry::Files);
        if item.open.is_some() {
            r.push(ItemEntry::Reconnect);
        }
    } else {
        r.push(ItemEntry::Rename);
    }
    r.push(ItemEntry::MoveTo);
    r.push(ItemEntry::Colors);
    if item.color.is_some() {
        r.push(ItemEntry::RemoveColor);
    }
    if item.open.is_some() {
        r.push(ItemEntry::Close);
    }
    r.push(ItemEntry::Delete);
    assert(r@ =~= item_entries(item@));
    r
}

/// What an entry of the menu of a profile or a host asks for; none for those that
/// open another menu.
pub open spec fn item_asks(entry: ItemEntry, id: u128, item: ItemModel) -> Option<TabAction> {
    match entry {
        ItemEntry::Open => Some(TabAction::OpenItem(id)),
        ItemEntry::Edit => Some(
            if item.ssh {
                TabAction::EditHost(id)
            } else {
                TabAction::EditProfile(id)
            },
        ),
        ItemEntry::Rename => Some(TabAction::StartItemRename(id)),
        ItemEntry::Files => Some(TabAction::OpenFiles(id)),
        ItemEntry::Reconnect => match item.open {
            Some(i) => Some(TabAction::Reconnect(i)),
            None => None,
        },
        ItemEntry::MoveTo => None,
        ItemEntry::Colors => None,
        ItemEntry::RemoveColor => Some(TabAction::ItemColor(id, None)),
        ItemEntry::Close => match item.open {
            Some(i) => Some(TabAction::Close(i)),
            None => None,
        },
        ItemEntry::Delete => Some(
            if item.ssh {
                TabAction::DeleteHost(id)
            } else {
                TabAction::DeleteProfile(id)
            },
        ),
    }
}

/// What an entry of the menu of a profile or a host asks for.
pub fn item_action(entry: ItemEntry, id: u128, item: &Item) -> (r: Option<TabAction>)
    ensures
        r == item_asks(entry, id, item@),
{
    match entry {
        ItemEntry::Open => Some(TabAction::OpenItem(id)),
        ItemEntry::Edit => Some(
            if item.ssh {
                TabAction::EditHost(id)
            } else {
                TabAction::EditProfile(id)
            },
        ),
        ItemEntry::Rename => Some(TabAction::StartItemRename(id)),
        ItemEntry::Files => Some(TabAction::OpenFiles(id)),
        ItemEntry::Reconnect => match item.open {
            Some(i) => Some(TabAction::Reconnect(i)),
            None => None,
        },
        ItemEntry::MoveTo => None,
        ItemEntry::Colors => None,
        ItemEntry::RemoveColor => Some(TabAction::ItemColor(id, None)),
        ItemEntry::Close => match item.open {
            Some(i) => Some(TabAction::Close(i)),
            None => None,
        },
        ItemEntry::Delete => Some(
            if item.ssh {
                TabAction::DeleteHost(id)
            } else {
                TabAction::DeleteProfile(id)
            },
        ),
    }
}

/// Every entry of the menu does something, but for those that open another menu.
pub proof fn law_entries_act(item: ItemModel, id: u128, i: int)
    requires
        0 <= i < item_entries(item).len(),
    ensures
        ({
            let e = item_entries(item)[i];
            item_asks(e, id, item) is None == (e is MoveTo || e is Colors)
        }),
{
}

/// What the menu of a pane asks for.
#[derive(Clone, Copy, PartialEq, Eq, Structural, Debug)]
pub enum PaneEntry {
    /// Copy the selection; only where there is one.
    Copy,
    Paste,
    Split(Direction),
    /// Open the directory of a local pane.
    Reveal,
    /// Connect an SSH pane again.
    Reconnect,
    /// The saved commands.
    Commands,
    Close,
}

/// The entries of the menu of a pane. An SSH pane's directory is on the server.
pub open spec fn pane_entries(local: bool) -> Seq<PaneEntry> {
    seq![
        PaneEntry::Copy,
        PaneEntry::Paste,
        PaneEntry::Split(Direction::Up),
        PaneEntry::Split(Direction::Right),
        PaneEntry::Split(Direction::Down),
        PaneEntry::Split(Direction::Left),
        if local {
            PaneEntry::Reveal
        } else {
            PaneEntry::Reconnect
        },
        PaneEntry::Commands,
        PaneEntry::Close,
    ]
}

/// The entries of the menu of a pane, each with whether it can be chosen.
pub fn pane_menu(local: bool, can_copy: bool) -> (r: Vec<(PaneEntry, bool)>)
    ensures
        r@.len() == pane_entries(local).len(),
        forall|i: int|
            0 <= i < r@.len() ==> (#[trigger] r@[i]) == (
                pane_entries(local)[i],
                !(pane_entries(local)[i] is Copy) || can_copy,
            ),
        forall|i: int|
            0 <= i < r@.len() ==> (#[trigger] r@[i]).1 == entry_enabled(r@[i].0, can_copy),
{
    let mut r: Vec<(PaneEntry, bool)> = Vec::new();
    r.push((PaneEntry::Copy, can_copy));
    r.push((PaneEntry::Paste, true));
    r.push((PaneEntry::Split(Direction::Up), true));
    r.push((PaneEntry::Split(Direction::Right), true));
    r.push((PaneEntry::Split(Direction::Down), true));
    r.push((PaneEntry::Split(Direction::Left), true));
    if local {
        r.push((PaneEntry::Reveal, true));
    } else {
        r.push((PaneEntry::Reconnect, true));
    }
    r.push((PaneEntry::Commands, true));
    r.push((PaneEntry::Close, true));
    r
}

/// What a click on a group asks for.
pub open spec fn group_clicked(id: u128, c: Clicks, before: Option<TabAction>) -> Option<TabAction> {
    if c.double_clicked {
        Some(TabAction::StartGroupRename(id))
    } else if c.clicked {
        Some(TabAction::ToggleGroup(id))
    } else {
        before
    }
}

/// What the keys do while a name is typed.
pub open spec fn name_edited(escape: bool, enter: bool, left: bool) -> NameEdit {
    if escape {
        NameEdit::Cancelled
    } else if enter {
        NameEdit::Done(true)
    } else if left {
        NameEdit::Done(false)
    } else {
        NameEdit::Going
    }
}

/// Whether an entry of the menu of a pane can be chosen.
pub open spec fn entry_enabled(entry: PaneEntry, can_copy: bool) -> bool {
    !(entry is Copy) || can_copy
}

} // verus!
