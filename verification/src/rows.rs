//! Rows of the file manager: their menus, what is dropped on them, and what the
//! dialogs and the transfer queue show.

use crate::browse::PanelOut;
use crate::files::{
    Dialog, DialogModel, FileManager, FileManagerModel, Side, Transfer, TransferModel,
    TransferState, TransferStateModel,
};
use crate::format::{
    format_size, octal, octal_text, octal_value, parse_octal, size_text, toggle_mode, toggled,
};
use crate::model::models;
use crate::panel::shows;
use crate::sftp::{Entry, EntryModel};
use crate::strings::Strings;
use crate::text::{decimal, holds, opt_view, push_numeral, same_str, to_chars, views};
use vstd::prelude::*;

verus! {

/// An entry of the menu of a row.
#[derive(Clone, Copy, PartialEq, Eq, Structural, Debug)]
pub enum RowItem {
    /// Transfer the selection to the other side.
    Transfer,
    /// Open the folder.
    Open,
    Rename,
    Permissions,
    NewFolder,
    CopyPath,
    /// Show the file in the system's file manager.
    OpenLocation,
    Delete,
}

pub open spec fn item_if(b: bool, item: RowItem) -> Seq<RowItem> {
    if b {
        seq![item]
    } else {
        Seq::empty()
    }
}

/// The menu of a row: one name can be renamed, remote files have permissions to
/// set, local ones a place to show.
pub open spec fn row_items(side: Side, is_dir: bool, selected: nat) -> Seq<RowItem> {
    seq![RowItem::Transfer] + item_if(is_dir, RowItem::Open) + item_if(
        selected == 1,
        RowItem::Rename,
    ) + item_if(side is Remote, RowItem::Permissions) + seq![RowItem::NewFolder, RowItem::CopyPath]
        + item_if(side is Local, RowItem::OpenLocation) + seq![RowItem::Delete]
}

/// The entries of the menu of a row. (Transfer needs a session.)
pub fn row_menu(side: Side, is_dir: bool, selected: usize) -> (r: Vec<RowItem>)
    ensures
        r@ == row_items(side, is_dir, selected as nat),
{
    let mut r: Vec<RowItem> = Vec::new();
    r.push(RowItem::Transfer);
    if is_dir {
        r.push(RowItem::Open);
    }
    if selected == 1 {
        r.push(RowItem::Rename);
    }
    if side == Side::Remote {
        r.push(RowItem::Permissions);
    }
    r.push(RowItem::NewFolder);
    r.push(RowItem::CopyPath);
    if side == Side::Local {
        r.push(RowItem::OpenLocation);
    }
    r.push(RowItem::Delete);
    assert(r@ =~= row_items(side, is_dir, selected as nat));
    r
}

/// The permissions assumed of a file whose own are not known.
pub const USUAL_MODE: u32 = 0x1a4;

/// The permissions that the dialog starts with.
pub open spec fn first_mode(mode: Option<u32>) -> u32 {
    match mode {
        Some(m) => m,
        None => USUAL_MODE,
    }
}

/// Whether one of the rows that are selected is a folder.
pub open spec fn any_folder(
    entries: Seq<EntryModel>,
    show_hidden: bool,
    selection: Seq<Seq<char>>,
) -> bool {
    exists|i: int|
        0 <= i < entries.len() && shows(#[trigger] entries[i], show_hidden) && entries[i].is_dir
            && selection.contains(entries[i].name)
}

impl FileManagerModel {
    /// The dialog that an entry of a row's menu opens.
    pub open spec fn row_dialog(self, item: RowItem, side: Side, entry: EntryModel) -> Option<
        DialogModel,
    > {
        let selection = self.panel(side).selected;
        match item {
            RowItem::Rename => Some(
                DialogModel::Rename { side, from: entry.name, text: entry.name, fresh: true },
            ),
            RowItem::Permissions => Some(
                DialogModel::Chmod {
                    names: selection,
                    mode: first_mode(entry.mode),
                    octal: octal_text(first_mode(entry.mode)),
                    recursive: false,
                    any_dir: any_folder(self.panel(side).entries, self.show_hidden, selection),
                },
            ),
            RowItem::NewFolder => Some(
                DialogModel::Mkdir { side, text: Seq::empty(), fresh: true },
            ),
            RowItem::Delete => Some(DialogModel::Delete { side, names: selection }),
            _ => None,
        }
    }
}

/// Nothing reported yet.
pub open spec fn nothing_reported(out: PanelOut) -> bool {
    &&& out.side is None
    &&& !out.focus
    &&& out.go is None
    &&& !out.home
    &&& !out.refresh
    &&& out.transfer is None
    &&& out.dropped is None
    &&& out.dialog is None
}

impl PanelOut {
    /// Nothing yet.
    pub fn new() -> (r: PanelOut)
        ensures
            nothing_reported(r),
    {
        PanelOut {
            side: None,
            focus: false,
            go: None,
            home: false,
            refresh: false,
            transfer: None,
            dropped: None,
            dialog: None,
        }
    }
}

impl FileManager {
    /// A double click on a row: opens a folder, transfers a file.
    pub fn double_click(&self, side: Side, entry: &Entry, out: &mut PanelOut)
        ensures
            entry.is_dir ==> {
                &&& opt_view(final(out).go) == Some(self@.path_of(side, entry.name@))
                &&& *final(out) == (PanelOut { go: final(out).go, ..*old(out) })
            },
            !entry.is_dir ==> {
                &&& final(out).transfer matches Some(names) && views(names@) == seq![entry.name@]
                &&& *final(out) == (PanelOut { transfer: final(out).transfer, ..*old(out) })
            },
            self@.double_click_opens(side, entry@) is Some ==> opt_view(final(out).go)
                == self@.double_click_opens(side, entry@),
            self@.double_click_opens(side, entry@) is None ==> final(out).go == old(out).go,
            self@.double_click_sends(entry@) is Some ==> reported_names(final(out).transfer)
                == self@.double_click_sends(entry@),
            self@.double_click_sends(entry@) is None ==> final(out).transfer == old(out).transfer,
    {
        if entry.is_dir {
            out.go = Some(self.path_of(side, entry.name.as_str()));
        } else {
            let mut names: Vec<String> = Vec::new();
            names.push(entry.name.clone());
            assert(views(names@) =~= seq![entry.name@]);
            out.transfer = Some(names);
        }
    }

    fn folder_selected(&self, side: Side, selection: &Vec<String>) -> (r: bool)
        ensures
            r == any_folder(self@.panel(side).entries, self.show_hidden, views(selection@)),
    {
        let panel = match side {
            Side::Local => &self.local,
            Side::Remote => &self.remote,
        };
        let ghost all = self@.panel(side).entries;
        let ghost names = views(selection@);
        let mut i: usize = 0;
        while i < panel.entries.len()
            invariant
                i <= panel.entries@.len(),
                all == models(panel.entries@),
                all == self@.panel(side).entries,
                names == views(selection@),
                forall|j: int|
                    0 <= j < i ==> !(shows(#[trigger] all[j], self.show_hidden) && all[j].is_dir
                        && names.contains(all[j].name)),
            decreases panel.entries.len() - i,
        {
            let chars = to_chars(panel.entries[i].name.as_str());
            let shown = self.show_hidden || !(chars.len() > 0 && chars[0] == '.');
            assert(shown == shows(all[i as int], self.show_hidden));
            if shown && panel.entries[i].is_dir && holds(
                selection,
                panel.entries[i].name.as_str(),
            ) {
                return true;
            }
            i += 1;
        }
        false
    }

    /// Picks an entry of the menu of a row. Gives the path of the file, where that
    /// is to be copied or shown.
    pub fn pick(&self, item: RowItem, side: Side, entry: &Entry, out: &mut PanelOut) -> (r: Option<
        String,
    >)
        ensures
            opt_view(r) == if item is CopyPath || item is OpenLocation {
                Some(self@.path_of(side, entry.name@))
            } else {
                None
            },
            match item {
                RowItem::Transfer => {
                    &&& final(out).transfer matches Some(names) && views(names@) == self@.panel(
                        side,
                    ).selected
                    &&& *final(out) == (PanelOut { transfer: final(out).transfer, ..*old(out) })
                },
                RowItem::Open => {
                    &&& opt_view(final(out).go) == Some(self@.path_of(side, entry.name@))
                    &&& *final(out) == (PanelOut { go: final(out).go, ..*old(out) })
                },
                RowItem::CopyPath | RowItem::OpenLocation => *final(out) == *old(out),
                _ => {
                    &&& crate::files::dialog_view(final(out).dialog) == self@.row_dialog(
                        item,
                        side,
                        entry@,
                    )
                    &&& *final(out) == (PanelOut { dialog: final(out).dialog, ..*old(out) })
                },
            },
            opt_view(r) == self@.item_path(item, side, entry@),
            self@.item_opens(item, side, entry@) is Some ==> opt_view(final(out).go) == self@.item_opens(
                item,
                side,
                entry@,
            ),
            self@.item_opens(item, side, entry@) is None ==> final(out).go == old(out).go,
            self@.item_sends(item, side) is Some ==> reported_names(final(out).transfer)
                == self@.item_sends(item, side),
            self@.item_sends(item, side) is None ==> final(out).transfer == old(out).transfer,
    {
        let selection = match side {
            Side::Local => self.local.selection(),
            Side::Remote => self.remote.selection(),
        };
        match item {
            RowItem::Transfer => {
                out.transfer = Some(selection);
                None
            },
            RowItem::Open => {
                out.go = Some(self.path_of(side, entry.name.as_str()));
                None
            },
            RowItem::Rename => {
                out.dialog = Some(
                    Dialog::Rename {
                        side,
                        from: entry.name.clone(),
                        text: entry.name.clone(),
                        fresh: true,
                    },
                );
                None
            },
            RowItem::Permissions => {
                let mode = match entry.mode {
                    Some(m) => m,
                    None => USUAL_MODE,
                };
                let any_dir = self.folder_selected(side, &selection);
                out.dialog = Some(
                    Dialog::Chmod {
                        names: selection,
                        mode,
                        octal: octal(mode),
                        recursive: false,
                        any_dir,
                    },
                );
                None
            },
            RowItem::NewFolder => {
                let text = String::new();
                assert(text@ =~= Seq::empty());
                out.dialog = Some(Dialog::Mkdir { side, text, fresh: true });
                None
            },
            RowItem::Delete => {
                out.dialog = Some(Dialog::Delete { side, names: selection });
                None
            },
            RowItem::CopyPath => Some(self.path_of(side, entry.name.as_str())),
            RowItem::OpenLocation => Some(self.path_of(side, entry.name.as_str())),
        }
    }

    /// A drop of names dragged from a side, over the panel of a side: into the
    /// folder under the pointer, or this panel's folder. What comes from the panel
    /// itself is ignored.
    pub fn drop_names(
        &self,
        from: Side,
        side: Side,
        names: Vec<String>,
        into: Option<String>,
        out: &mut PanelOut,
    )
        ensures
            from == side ==> *final(out) == *old(out),
            from != side ==> {
                &&& *final(out) == (PanelOut { dropped: final(out).dropped, ..*old(out) })
                &&& final(out).dropped matches Some(d) && views(d.0@) == views(names@) && opt_view(
                    d.1,
                ) == match into {
                    Some(dir) => Some(self@.path_of(side, dir@)),
                    None => None,
                }
            },
            from != side ==> (final(out).dropped matches Some(d) && opt_view(d.1) == self@.dropped_into(
                side,
                opt_view(into),
            )),
    {
        if from != side {
            let target = match into {
                Some(dir) => Some(self.path_of(side, dir.as_str())),
                None => None,
            };
            out.dropped = Some((names, target));
        }
    }

    /// Whether the selection of a side can be transferred.
    pub fn can_transfer(&self, side: Side) -> (r: bool)
        ensures
            r == (self@.status is Ready && self@.panel(side).selected.len() > 0),
            r == self@.has_transfer(side),
    {
        let ready = match self.status {
            crate::files::Status::Ready => true,
            _ => false,
        };
        let panel = match side {
            Side::Local => &self.local,
            Side::Remote => &self.remote,
        };
        assert(panel@.selected.len() == panel.selected.list@.len());
        ready && panel.selected.list.len() > 0
    }
}

impl Dialog {
    /// Switches one of the permissions on or off; the number follows.
    pub fn toggle(&mut self, flag: u32, on: bool)
        ensures
            final(self)@ == match old(self)@ {
                DialogModel::Chmod { names, mode, recursive, any_dir, .. } => DialogModel::Chmod {
                    names,
                    mode: toggled(mode, flag, on),
                    octal: octal_text(toggled(mode, flag, on) & 0x1ff),
                    recursive,
                    any_dir,
                },
                other => other,
            },
            final(self)@ == old(self)@.mode_switched(flag, on),
    {
        if let Dialog::Chmod { mode, octal: text, .. } = self {
            *mode = toggle_mode(*mode, flag, on);
            *text = octal(*mode & 0x1ff);
        }
    }

    /// Types the permissions as a number; they follow where it is one.
    pub fn type_octal(&mut self, typed: String)
        ensures
            final(self)@ == match old(self)@ {
                DialogModel::Chmod { names, mode, recursive, any_dir, .. } => DialogModel::Chmod {
                    names,
                    mode: match octal_value(typed@) {
                        Some(v) => v as u32,
                        None => mode,
                    },
                    octal: typed@,
                    recursive,
                    any_dir,
                },
                other => other,
            },
            final(self)@ == old(self)@.mode_typed(typed@),
    {
        if let Dialog::Chmod { mode, octal: text, .. } = self {
            if let Some(v) = parse_octal(typed.as_str()) {
                *mode = v;
            }
            *text = typed;
        }
    }
}

/// How many names a dialog lists.
pub const LISTED: usize = 8;

/// The lines that list names: the first ones, then how many more there are.
pub open spec fn listed_lines(names: Seq<Seq<char>>) -> Seq<Seq<char>> {
    let first = names.take(
        if names.len() > LISTED {
            LISTED as int
        } else {
            names.len() as int
        },
    ).map_values(|n: Seq<char>| "•  "@ + n);
    if names.len() > LISTED {
        first.push("…  +"@ + decimal((names.len() - LISTED) as nat))
    } else {
        first
    }
}

/// The lines that list names in a dialog.
pub fn list_lines(names: &Vec<String>) -> (r: Vec<String>)
    ensures
        views(r@) == listed_lines(views(names@)),
{
    let ghost all = views(names@);
    let count: usize = if names.len() > LISTED {
        LISTED
    } else {
        names.len()
    };
    let ghost lines = all.take(count as int).map_values(|n: Seq<char>| "•  "@ + n);
    let mut r: Vec<String> = Vec::new();
    let mut i: usize = 0;
    assert(views(r@) =~= lines.take(0));
    while i < count
        invariant
            i <= count <= names@.len(),
            all == views(names@),
            lines == all.take(count as int).map_values(|n: Seq<char>| "•  "@ + n),
            views(r@) == lines.take(i as int),
        decreases count - i,
    {
        let ghost before = views(r@);
        let mut line = String::new();
        line.push_str("•  ");
        line.push_str(names[i].as_str());
        assert(line@ =~= lines[i as int]);
        r.push(line);
        assert(views(r@) =~= before.push(lines[i as int]));
        assert(lines.take(i + 1) =~= lines.take(i as int).push(lines[i as int]));
        i += 1;
    }
    assert(lines.take(i as int) =~= lines);
    if names.len() > LISTED {
        let ghost before = views(r@);
        let mut line = String::new();
        line.push_str("…  +");
        push_numeral(&mut line, (names.len() - LISTED) as u64, 10);
        assert(line@ =~= "…  +"@ + decimal((names@.len() - LISTED) as nat));
        r.push(line);
        assert(views(r@) =~= before.push(line@));
    }
    r
}

/// What the queue shows of a transfer; `speed` is in bytes per second.
pub open spec fn status_text(t: TransferModel, speed: u64, s: Strings) -> Seq<char> {
    match t.state {
        TransferStateModel::Queued => s.files_queued@,
        TransferStateModel::Running => size_text(t.done as nat, s) + " / "@ + size_text(
            t.total as nat,
            s,
        ) + "  ·  "@ + size_text(speed as nat, s) + "/s"@,
        TransferStateModel::Done => "✔  "@ + size_text(t.total as nat, s),
        TransferStateModel::Failed(e) => if e == "cancelled"@ {
            s.files_cancelled@
        } else {
            "✖  "@ + e
        },
    }
}

impl Transfer {
    /// What the queue shows of this transfer.
    pub fn status(&self, speed: u64, t: &Strings) -> (r: String)
        ensures
            r@ == status_text(self@, speed, *t),
    {
        match &self.state {
            TransferState::Queued => t.files_queued.to_owned(),
            TransferState::Running => {
                let mut r = format_size(self.done, t);
                r.push_str(" / ");
                r.push_str(format_size(self.total, t).as_str());
                r.push_str("  ·  ");
                r.push_str(format_size(speed, t).as_str());
                r.push_str("/s");
                r
            },
            TransferState::Done => {
                let mut r = String::new();
                r.push_str("✔  ");
                r.push_str(format_size(self.total, t).as_str());
                assert(r@ =~= "✔  "@ + size_text(self.total as nat, *t));
                r
            },
            TransferState::Failed(e) => {
                if same_str(e.as_str(), "cancelled") {
                    t.files_cancelled.to_owned()
                } else {
                    let mut r = String::new();
                    r.push_str("✖  ");
                    r.push_str(e.as_str());
                    assert(r@ =~= "✖  "@ + e@);
                    r
                }
            },
        }
    }
}

impl FileManagerModel {
    /// The folder that a double click opens.
    pub open spec fn double_click_opens(self, side: Side, e: EntryModel) -> Option<Seq<char>> {
        if e.is_dir {
            Some(self.path_of(side, e.name))
        } else {
            None
        }
    }

    /// The names that a double click transfers.
    pub open spec fn double_click_sends(self, e: EntryModel) -> Option<Seq<Seq<char>>> {
        if e.is_dir {
            None
        } else {
            Some(seq![e.name])
        }
    }

    /// The path that an item of the menu is about.
    pub open spec fn item_path(self, item: RowItem, side: Side, e: EntryModel) -> Option<Seq<char>> {
        if item is CopyPath || item is OpenLocation {
            Some(self.path_of(side, e.name))
        } else {
            None
        }
    }

    /// The folder that an item of the menu opens.
    pub open spec fn item_opens(self, item: RowItem, side: Side, e: EntryModel) -> Option<Seq<char>> {
        if item is Open {
            Some(self.path_of(side, e.name))
        } else {
            None
        }
    }

    /// The names that an item of the menu transfers.
    pub open spec fn item_sends(self, item: RowItem, side: Side) -> Option<Seq<Seq<char>>> {
        if item is Transfer {
            Some(self.panel(side).selected)
        } else {
            None
        }
    }

    /// Where names that are dropped go.
    pub open spec fn dropped_into(self, side: Side, into: Option<Seq<char>>) -> Option<Seq<char>> {
        match into {
            Some(dir) => Some(self.path_of(side, dir)),
            None => None,
        }
    }

    /// Whether there is something to transfer, and a session to do it.
    pub open spec fn has_transfer(self, side: Side) -> bool {
        self.status is Ready && self.panel(side).selected.len() > 0
    }
}

impl DialogModel {
    /// With a permission switched.
    pub open spec fn mode_switched(self, flag: u32, on: bool) -> DialogModel {
        match self {
            DialogModel::Chmod { names, mode, recursive, any_dir, .. } => DialogModel::Chmod {
                names,
                mode: toggled(mode, flag, on),
                octal: octal_text(toggled(mode, flag, on) & 0x1ff),
                recursive,
                any_dir,
            },
            other => other,
        }
    }

    /// With the permissions typed.
    pub open spec fn mode_typed(self, typed: Seq<char>) -> DialogModel {
        match self {
            DialogModel::Chmod { names, mode, recursive, any_dir, .. } => DialogModel::Chmod {
                names,
                mode: match octal_value(typed) {
                    Some(v) => v as u32,
                    None => mode,
                },
                octal: typed,
                recursive,
                any_dir,
            },
            other => other,
        }
    }
}

/// The names in a report, if there are any.
pub open spec fn reported_names(names: Option<Vec<String>>) -> Option<Seq<Seq<char>>> {
    match names {
        Some(n) => Some(views(n@)),
        None => None,
    }
}

} // verus!
