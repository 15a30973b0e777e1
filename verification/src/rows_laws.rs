//! How the rows of a panel are sorted, and what is chosen on them.

use crate::files::{DialogModel, FileManagerModel, Side, TransferModel, TransferStateModel};
use crate::format::{octal_text, octal_value, size_text, toggled};
use crate::panel::{above, is_order, shows, PanelModel, SortBy};
use crate::paths::seen_from;
use crate::rows::{any_folder, first_mode, listed_lines, status_text, RowItem};
use crate::sftp::{joined_path, EntryModel};
use crate::strings::Strings;
use crate::text::{before, begins, ends, lemma_before_total};
use vstd::prelude::*;

verus! {

/// Every file that is to be shown has one row; hidden ones have none, unless they are shown.
pub proof fn law_rows_of_files(
    sort: (SortBy, bool),
    entries: Seq<EntryModel>,
    lower: Seq<Seq<char>>,
    show_hidden: bool,
    rows: Seq<usize>,
    i: int,
)
    requires
        is_order(sort, entries, lower, show_hidden, rows),
        0 <= i < entries.len() <= usize::MAX,
    ensures
        rows.contains(i as usize) == (show_hidden || entries[i].name.len() == 0
            || entries[i].name[0] != '.'),
        rows.no_duplicates(),
{
    if rows.contains(i as usize) {
        let k = choose|k: int| 0 <= k < rows.len() && rows[k] == i as usize;
        assert(shows(entries[rows[k] as int], show_hidden));
    }
    if shows(entries[i], show_hidden) {
        assert(rows.contains(i as usize));
    }
    assert forall|p: int, q: int| 0 <= p < q < rows.len() implies rows[p] != rows[q] by {
        assert(above(sort, entries, lower, rows[p] as int, rows[q] as int));
        let e = entries[rows[p] as int];
        let l = lower[rows[p] as int];
        lemma_before_total(l, l);
    }
}

/// Files of one kind are sorted by the column: by name without regard to case, by size, by
/// time and by permissions, upwards or downwards.
pub proof fn law_sorted_by_column(
    entries: Seq<EntryModel>,
    lower: Seq<Seq<char>>,
    show_hidden: bool,
    rows: Seq<usize>,
    by: SortBy,
    up: bool,
    p: int,
    q: int,
)
    requires
        is_order((by, up), entries, lower, show_hidden, rows),
        0 <= p < q < rows.len(),
        entries[rows[p] as int].is_dir == entries[rows[q] as int].is_dir,
    ensures
        ({
            let (a, b) = if up {
                (rows[p] as int, rows[q] as int)
            } else {
                (rows[q] as int, rows[p] as int)
            };
            match by {
                SortBy::Name => !before(lower[b], lower[a]),
                SortBy::Size => entries[a].size <= entries[b].size,
                SortBy::Modified => {
                    &&& entries[a].mtime is Some && entries[b].mtime is Some ==> entries[a].mtime->0
                        <= entries[b].mtime->0
                    &&& entries[b].mtime is None ==> entries[a].mtime is None
                },
                SortBy::Mode => {
                    &&& entries[a].mode is Some && entries[b].mode is Some ==> entries[a].mode->0
                        <= entries[b].mode->0
                    &&& entries[b].mode is None ==> entries[a].mode is None
                },
            }
        }),
{
    assert(above((by, up), entries, lower, rows[p] as int, rows[q] as int));
    lemma_before_total(lower[rows[p] as int], lower[rows[q] as int]);
    lemma_before_total(lower[rows[q] as int], lower[rows[p] as int]);
}

/// Files that are alike in the column stay in the order in which they came.
pub proof fn law_sorting_is_stable(
    entries: Seq<EntryModel>,
    lower: Seq<Seq<char>>,
    show_hidden: bool,
    rows: Seq<usize>,
    up: bool,
    p: int,
    q: int,
)
    requires
        is_order((SortBy::Size, up), entries, lower, show_hidden, rows),
        0 <= p < q < rows.len(),
        entries[rows[p] as int].is_dir == entries[rows[q] as int].is_dir,
        entries[rows[p] as int].size == entries[rows[q] as int].size,
    ensures
        rows[p] < rows[q],
{
    assert(above((SortBy::Size, up), entries, lower, rows[p] as int, rows[q] as int));
}

/// Another column sorts upwards; the same one again turns the order round, and twice turns it
/// back.
pub proof fn law_column_clicks(p: PanelModel, by: SortBy)
    ensures
        p.sort.0 != by ==> p.sorted_by(by).sort == (by, true),
        p.sort.0 == by ==> p.sorted_by(by).sort == (by, !p.sort.1),
        p.sorted_by(p.sort.0).sorted_by(p.sort.0) == p,
        p.sorted_by(by).entries == p.entries,
        p.sorted_by(by).selected == p.selected,
{
}

/// A panel starts in its folder with nothing selected, sorted by name.
pub proof fn law_fresh_panel(path: Seq<char>)
    ensures
        ({
            let p = PanelModel::fresh(path);
            &&& p.path == path && p.path_text == path
            &&& p.entries.len() == 0 && p.selected.len() == 0 && p.anchor is None
            &&& p.sort == (SortBy::Name, true)
        }),
{
}

/// A double click opens a folder and transfers a file, of the side that it is on.
pub proof fn law_double_click(m: FileManagerModel, e: EntryModel)
    ensures
        e.is_dir ==> m.double_click_opens(Side::Local, e) == Some(
            seen_from(m.local.path, e.name, m.platform),
        ),
        e.is_dir ==> m.double_click_opens(Side::Remote, e) == Some(
            joined_path(m.remote.path, e.name),
        ),
        !e.is_dir ==> m.double_click_opens(Side::Local, e) is None && m.double_click_opens(
            Side::Remote,
            e,
        ) is None,
        e.is_dir ==> m.double_click_sends(e) is None,
        !e.is_dir ==> m.double_click_sends(e) == Some(seq![e.name]),
{
}

/// The entries of the menu of a row open that row, copy or show its path, and transfer what
/// is selected on its side.
pub proof fn law_row_entries(m: FileManagerModel, e: EntryModel)
    ensures
        m.item_opens(RowItem::Open, Side::Local, e) == Some(
            seen_from(m.local.path, e.name, m.platform),
        ),
        m.item_opens(RowItem::Open, Side::Remote, e) == Some(joined_path(m.remote.path, e.name)),
        m.item_path(RowItem::CopyPath, Side::Local, e) == Some(
            seen_from(m.local.path, e.name, m.platform),
        ),
        m.item_path(RowItem::CopyPath, Side::Remote, e) == Some(joined_path(m.remote.path, e.name)),
        m.item_path(RowItem::OpenLocation, Side::Local, e) == Some(
            seen_from(m.local.path, e.name, m.platform),
        ),
        m.item_path(RowItem::Delete, Side::Local, e) is None,
        m.item_sends(RowItem::Transfer, Side::Local) == Some(m.local.selected),
        m.item_sends(RowItem::Transfer, Side::Remote) == Some(m.remote.selected),
        forall|i: RowItem, s: Side| !(i is Transfer) ==> #[trigger] m.item_sends(i, s) is None,
        forall|i: RowItem, s: Side| !(i is Open) ==> #[trigger] m.item_opens(i, s, e) is None,
{
}

/// What is dropped onto a folder goes into that folder of the side it was dropped on.
pub proof fn law_dropped_into(m: FileManagerModel, dir: Seq<char>)
    ensures
        m.dropped_into(Side::Local, Some(dir)) == Some(seen_from(m.local.path, dir, m.platform)),
        m.dropped_into(Side::Remote, Some(dir)) == Some(joined_path(m.remote.path, dir)),
        m.dropped_into(Side::Local, None) is None,
        m.dropped_into(Side::Remote, None) is None,
{
}

/// There is something to transfer once the session is ready and something is selected on that
/// side.
pub proof fn law_has_transfer(m: FileManagerModel)
    ensures
        !(m.status is Ready) ==> !m.has_transfer(Side::Local) && !m.has_transfer(Side::Remote),
        m.status is Ready ==> m.has_transfer(Side::Local) == (m.local.selected.len() > 0),
        m.status is Ready ==> m.has_transfer(Side::Remote) == (m.remote.selected.len() > 0),
{
}

/// The permissions of the dialog are those that are switched or typed; what cannot be read
/// changes none. Whose they are, and how deep they go, stays.
pub proof fn law_permissions_dialog(
    names: Seq<Seq<char>>,
    mode: u32,
    octal: Seq<char>,
    recursive: bool,
    any_dir: bool,
    flag: u32,
    on: bool,
    typed: Seq<char>,
)
    ensures
        ({
            let d = DialogModel::Chmod { names, mode, octal, recursive, any_dir };
            &&& d.mode_switched(flag, on) matches DialogModel::Chmod {
                names: n,
                mode: m,
                octal: o,
                recursive: r,
                any_dir: a,
            } && n == names && m == toggled(mode, flag, on) && o == octal_text(m & 0x1ff) && r
                == recursive && a == any_dir
        }),
        ({
            let d = DialogModel::Chmod { names, mode, octal, recursive, any_dir };
            &&& d.mode_typed(typed) matches DialogModel::Chmod {
                names: n,
                mode: m,
                octal: o,
                recursive: r,
                any_dir: a,
            } && n == names && o == typed && r == recursive && a == any_dir && (octal_value(typed)
                is None ==> m == mode) && (octal_value(typed) matches Some(v) ==> m as nat == v)
        }),
{
    crate::text_laws::law_number_bounded(crate::text::trimmed(typed), 8, 0xfff);
}

/// The permissions that are offered first are those of the file, or the usual ones; that they
/// can go deep is asked where a folder is selected.
pub proof fn law_first_permissions(
    mode: u32,
    entries: Seq<EntryModel>,
    selection: Seq<Seq<char>>,
    i: int,
)
    ensures
        first_mode(Some(mode)) == mode,
        first_mode(None) == 0x1a4,
        0 <= i < entries.len() && entries[i].is_dir && selection.contains(entries[i].name)
            ==> any_folder(entries, true, selection),
        (forall|k: int| 0 <= k < entries.len() ==> !(#[trigger] entries[k]).is_dir) ==> !any_folder(
            entries,
            true,
            selection,
        ),
{
    if 0 <= i < entries.len() && entries[i].is_dir && selection.contains(entries[i].name) {
        assert(shows(entries[i], true));
    }
}

/// The names of a question are listed one to a line, each whole; where there are more than
/// fit, the last line tells of them.
pub proof fn law_listed_names(names: Seq<Seq<char>>, i: int)
    ensures
        names.len() <= 8 ==> listed_lines(names).len() == names.len(),
        names.len() > 8 ==> listed_lines(names).len() == 9,
        0 <= i < names.len() && i < 8 ==> ends(listed_lines(names)[i], names[i]),
{
    if 0 <= i < names.len() && i < 8 {
        let l = listed_lines(names)[i];
        assert(l == "•  "@ + names[i]);
        assert(l.skip(l.len() - names[i].len()) =~= names[i]);
    }
}

/// A transfer that runs tells how much is done, first, of how much; one that is done its
/// size, one that failed why.
pub proof fn law_transfer_status(t: TransferModel, speed: u64, s: Strings)
    ensures
        t.state is Queued ==> status_text(t, speed, s) == s.files_queued@,
        t.state is Running ==> begins(
            status_text(t, speed, s),
            size_text(t.done as nat, s) + " / "@ + size_text(t.total as nat, s),
        ),
        t.state is Done ==> ends(status_text(t, speed, s), size_text(t.total as nat, s)),
        t.state matches TransferStateModel::Failed(e) ==> if e == "cancelled"@ {
            status_text(t, speed, s) == s.files_cancelled@
        } else {
            ends(status_text(t, speed, s), e)
        },
{
    let r = status_text(t, speed, s);
    match t.state {
        TransferStateModel::Running => {
            let head = size_text(t.done as nat, s) + " / "@ + size_text(t.total as nat, s);
            assert(r.take(head.len() as int) =~= head);
        },
        TransferStateModel::Done => {
            let n = size_text(t.total as nat, s);
            assert(r.skip(r.len() - n.len()) =~= n);
        },
        TransferStateModel::Failed(e) => {
            if e != "cancelled"@ {
                assert(r.skip(r.len() - e.len()) =~= e);
            }
        },
        TransferStateModel::Queued => {},
    }
}

} // verus!
