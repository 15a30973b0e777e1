//! One panel of the file manager: a folder, its files in order and the selection.

use crate::model::models;
use crate::names::{common, name_set, with_name, without_name, Names};
use crate::sftp::{Entry, EntryModel};
use crate::text::{
    before, comes_before, lemma_before_total, lemma_before_trans, lowercase, opt_view, same_str,
    to_chars, to_lowercase, views,
};
use vstd::prelude::*;

verus! {

/// What the files are sorted by.
#[derive(Clone, Copy, PartialEq, Eq, Structural, Debug)]
pub enum SortBy {
    Name,
    Size,
    Modified,
    Mode,
}

/// A panel of the file manager.
#[derive(Debug)]
pub struct Panel {
    /// Current directory (a local path, or an absolute remote path).
    pub path: String,
    /// The path field, as typed.
    pub path_text: String,
    pub entries: Vec<Entry>,
    pub selected: Names,
    /// Last clicked row, for Shift+click ranges.
    pub anchor: Option<String>,
    pub sort: (SortBy, bool),
    pub loading: bool,
}

#[verifier::ext_equal]
pub struct PanelModel {
    pub path: Seq<char>,
    pub path_text: Seq<char>,
    pub entries: Seq<EntryModel>,
    pub selected: Seq<Seq<char>>,
    pub anchor: Option<Seq<char>>,
    pub sort: (SortBy, bool),
    pub loading: bool,
}

impl View for Panel {
    type V = PanelModel;

    open spec fn view(&self) -> PanelModel {
        PanelModel {
            path: self.path@,
            path_text: self.path_text@,
            entries: models(self.entries@),
            selected: self.selected@,
            anchor: opt_view(self.anchor),
            sort: self.sort,
            loading: self.loading,
        }
    }
}

/// The order of two values that may be missing: a missing one comes first.
pub open spec fn opt_less<T>(a: Option<T>, b: Option<T>, less: spec_fn(T, T) -> bool) -> bool {
    match (a, b) {
        (None, Some(_)) => true,
        (Some(x), Some(y)) => less(x, y),
        _ => false,
    }
}

/// Whether a file comes before another by what they are sorted by; `la` and `lb`
/// are their names in lower case.
pub open spec fn key_less(
    by: SortBy,
    a: EntryModel,
    b: EntryModel,
    la: Seq<char>,
    lb: Seq<char>,
) -> bool {
    match by {
        SortBy::Name => before(la, lb),
        SortBy::Size => a.size < b.size,
        SortBy::Modified => opt_less(a.mtime, b.mtime, |x: i64, y: i64| x < y),
        SortBy::Mode => opt_less(a.mode, b.mode, |x: u32, y: u32| x < y),
    }
}

/// Whether a file comes before another: directories first, then in the chosen order.
pub open spec fn less(
    sort: (SortBy, bool),
    a: EntryModel,
    b: EntryModel,
    la: Seq<char>,
    lb: Seq<char>,
) -> bool {
    if a.is_dir != b.is_dir {
        a.is_dir
    } else if sort.1 {
        key_less(sort.0, a, b, la, lb)
    } else {
        key_less(sort.0, b, a, lb, la)
    }
}

/// Whether the file at `i` stands above the one at `j`: it comes before it, or
/// they are equal in order and it was listed first.
pub open spec fn above(
    sort: (SortBy, bool),
    entries: Seq<EntryModel>,
    lower: Seq<Seq<char>>,
    i: int,
    j: int,
) -> bool {
    ||| less(sort, entries[i], entries[j], lower[i], lower[j])
    ||| !less(sort, entries[j], entries[i], lower[j], lower[i]) && i < j
}

/// Whether a file is shown: those whose name starts with a point are hidden.
pub open spec fn shows(e: EntryModel, show_hidden: bool) -> bool {
    show_hidden || !(e.name.len() > 0 && e.name[0] == '.')
}

/// Whether `rows` are the places of the files to show, each above the next.
pub open spec fn is_order(
    sort: (SortBy, bool),
    entries: Seq<EntryModel>,
    lower: Seq<Seq<char>>,
    show_hidden: bool,
    rows: Seq<usize>,
) -> bool {
    &&& forall|k: int| 0 <= k < rows.len() ==> (#[trigger] rows[k]) < entries.len() && shows(
        entries[rows[k] as int],
        show_hidden,
    )
    &&& forall|i: int|
        0 <= i < entries.len() && shows(#[trigger] entries[i], show_hidden) ==> rows.contains(
            i as usize,
        )
    &&& forall|p: int, q: int|
        0 <= p < q < rows.len() ==> above(
            sort,
            entries,
            lower,
            #[trigger] rows[p] as int,
            #[trigger] rows[q] as int,
        )
}

/// The names of files in lower case.
pub open spec fn lower_names(entries: Seq<EntryModel>) -> Seq<Seq<char>> {
    entries.map_values(|e: EntryModel| lowercase(e.name))
}

/// The names of files.
pub open spec fn names_of(entries: Seq<EntryModel>) -> Seq<Seq<char>> {
    entries.map_values(|e: EntryModel| e.name)
}

fn opt_below(a: Option<i64>, b: Option<i64>) -> (r: bool)
    ensures
        r == opt_less(a, b, |x: i64, y: i64| x < y),
{
    match (a, b) {
        (None, Some(_)) => true,
        (Some(x), Some(y)) => x < y,
        _ => false,
    }
}

fn mode_below(a: Option<u32>, b: Option<u32>) -> (r: bool)
    ensures
        r == opt_less(a, b, |x: u32, y: u32| x < y),
{
    match (a, b) {
        (None, Some(_)) => true,
        (Some(x), Some(y)) => x < y,
        _ => false,
    }
}

fn key_below(by: SortBy, a: &Entry, b: &Entry, la: &str, lb: &str) -> (r: bool)
    ensures
        r == key_less(by, a@, b@, la@, lb@),
{
    match by {
        SortBy::Name => comes_before(&to_chars(la), &to_chars(lb)),
        SortBy::Size => a.size < b.size,
        SortBy::Modified => opt_below(a.mtime, b.mtime),
        SortBy::Mode => mode_below(a.mode, b.mode),
    }
}

fn is_below(sort: (SortBy, bool), a: &Entry, b: &Entry, la: &str, lb: &str) -> (r: bool)
    ensures
        r == less(sort, a@, b@, la@, lb@),
{
    if a.is_dir != b.is_dir {
        a.is_dir
    } else if sort.1 {
        key_below(sort.0, a, b, la, lb)
    } else {
        key_below(sort.0, b, a, lb, la)
    }
}

/// One file before another, which is not after a third: the first is before the third.
proof fn lemma_less(
    sort: (SortBy, bool),
    a: EntryModel,
    b: EntryModel,
    c: EntryModel,
    la: Seq<char>,
    lb: Seq<char>,
    lc: Seq<char>,
)
    requires
        less(sort, a, b, la, lb),
        !less(sort, c, b, lc, lb),
    ensures
        less(sort, a, c, la, lc),
{
    lemma_before_total(la, lb);
    lemma_before_total(lb, lc);
    lemma_before_total(la, lc);
    if before(la, lb) && before(lb, lc) {
        lemma_before_trans(la, lb, lc);
    }
    if before(lc, lb) && before(lb, la) {
        lemma_before_trans(lc, lb, la);
    }
}

/// The order of files is strict: none comes before itself, nor two before each other.
proof fn lemma_less_strict(
    sort: (SortBy, bool),
    a: EntryModel,
    b: EntryModel,
    la: Seq<char>,
    lb: Seq<char>,
)
    ensures
        less(sort, a, b, la, lb) ==> !less(sort, b, a, lb, la),
{
    lemma_before_total(la, lb);
    lemma_before_total(lb, la);
}

/// The places of the files to show, in order, given their names in lower case.
pub fn ordered(
    entries: &Vec<Entry>,
    lower: &Vec<String>,
    sort: (SortBy, bool),
    show_hidden: bool,
) -> (rows: Vec<usize>)
    requires
        lower@.len() == entries@.len(),
    ensures
        is_order(sort, models(entries@), views(lower@), show_hidden, rows@),
{
    let mut rows: Vec<usize> = Vec::new();
    let ghost es = models(entries@);
    let ghost ls = views(lower@);
    let mut i: usize = 0;
    while i < entries.len()
        invariant
            i <= entries@.len(),
            lower@.len() == entries@.len(),
            es == models(entries@),
            ls == views(lower@),
            forall|k: int|
                0 <= k < rows@.len() ==> (#[trigger] rows@[k]) < i && shows(
                    es[rows@[k] as int],
                    show_hidden,
                ),
            forall|j: int|
                0 <= j < i && shows(#[trigger] es[j], show_hidden) ==> rows@.contains(j as usize),
            forall|p: int, q: int|
                0 <= p < q < rows@.len() ==> above(
                    sort,
                    es,
                    ls,
                    #[trigger] rows@[p] as int,
                    #[trigger] rows@[q] as int,
                ),
        decreases entries.len() - i,
    {
        let name = to_chars(entries[i].name.as_str());
        assert(es[i as int].name == name@);
        if show_hidden || !(name.len() > 0 && name[0] == '.') {
            let mut p: usize = 0;
            while p < rows.len() && !is_below(
                sort,
                &entries[i],
                &entries[rows[p]],
                lower[i].as_str(),
                lower[rows[p]].as_str(),
            )
                invariant
                    p <= rows@.len(),
                    i < entries@.len(),
                    lower@.len() == entries@.len(),
                    es == models(entries@),
                    ls == views(lower@),
                    forall|k: int| 0 <= k < rows@.len() ==> (#[trigger] rows@[k]) < i,
                    forall|k: int|
                        0 <= k < p ==> !less(
                            sort,
                            es[i as int],
                            es[#[trigger] rows@[k] as int],
                            ls[i as int],
                            ls[rows@[k] as int],
                        ),
                decreases rows.len() - p,
            {
                p += 1;
            }
            let ghost old_rows = rows@;
            rows.insert(p, i);
            proof {
                let n = p as int;
                assert(rows@ == old_rows.insert(n, i));
                assert forall|j: int| 0 <= j < i + 1 && shows(
                    #[trigger] es[j],
                    show_hidden,
                ) implies rows@.contains(j as usize) by {
                    if j < i {
                        let k = choose|k: int| 0 <= k < old_rows.len() && old_rows[k] == j as usize;
                        if k < n {
                            assert(rows@[k] == j as usize);
                        } else {
                            assert(rows@[k + 1] == j as usize);
                        }
                    } else {
                        assert(rows@[n] == i);
                    }
                }
                assert forall|a: int, b: int| 0 <= a < b < rows@.len() implies above(
                    sort,
                    es,
                    ls,
                    #[trigger] rows@[a] as int,
                    #[trigger] rows@[b] as int,
                ) by {
                    let oa = if a < n {
                        a
                    } else {
                        a - 1
                    };
                    let ob = if b < n {
                        b
                    } else {
                        b - 1
                    };
                    if a == n {
                        assert(rows@[b] == old_rows[ob]);
                        let (x, y) = (old_rows[n] as int, old_rows[ob] as int);
                        lemma_less_strict(sort, es[x], es[y], ls[x], ls[y]);
                        if ob > n {
                            assert(above(sort, es, ls, old_rows[n] as int, old_rows[ob] as int));
                        }
                        lemma_less_strict(sort, es[y], es[y], ls[y], ls[y]);
                        lemma_less(sort, es[i as int], es[x], es[y], ls[i as int], ls[x], ls[y]);
                    } else if b == n {
                        assert(rows@[a] == old_rows[oa]);
                    } else {
                        assert(rows@[a] == old_rows[oa] && rows@[b] == old_rows[ob]);
                    }
                }
            }
        }
        i += 1;
    }
    rows
}

impl Panel {
    /// Whether the selection is in order.
    pub open spec fn wf(&self) -> bool {
        self.selected.wf()
    }

    /// A panel on a folder that was not read yet.
    pub fn new(path: String) -> (r: Panel)
        ensures
            r.wf(),
            r@ == PanelModel::fresh(path@),
    {
        let r = Panel {
            path_text: path.clone(),
            path,
            entries: Vec::new(),
            selected: Names::new(),
            anchor: None,
            sort: (SortBy::Name, true),
            loading: false,
        };
        assert(r@.entries =~= Seq::empty());
        r
    }

    /// The places of the entries to show, sorted (directories first), hidden files filtered.
    pub fn visible(&self, show_hidden: bool) -> (rows: Vec<usize>)
        ensures
            is_order(
                self.sort,
                models(self.entries@),
                lower_names(models(self.entries@)),
                show_hidden,
                rows@,
            ),
    {
        let mut lower: Vec<String> = Vec::new();
        let mut i: usize = 0;
        let ghost all = lower_names(models(self.entries@));
        while i < self.entries.len()
            invariant
                i <= self.entries@.len(),
                all == lower_names(models(self.entries@)),
                views(lower@) == all.take(i as int),
            decreases self.entries.len() - i,
        {
            let ghost before = views(lower@);
            let l = to_lowercase(self.entries[i].name.as_str());
            lower.push(l);
            assert(views(lower@) =~= before.push(l@));
            assert(all.take(i + 1) =~= all.take(i as int).push(l@));
            i += 1;
        }
        assert(views(lower@) =~= all);
        ordered(&self.entries, &lower, self.sort, show_hidden)
    }

    /// The selected names, in order.
    pub fn selection(&self) -> (r: Vec<String>)
        ensures
            views(r@) == self@.selected,
    {
        crate::text::clone_all(&self.selected.list)
    }

    /// Sorts by a column; by the same column again, the other way round.
    pub fn sort_by(&mut self, by: SortBy)
        ensures
            final(self)@ == (PanelModel {
                sort: if old(self).sort.0 == by {
                    (by, !old(self).sort.1)
                } else {
                    (by, true)
                },
                ..old(self)@
            }),
            final(self).wf() == old(self).wf(),
            final(self)@ == old(self)@.sorted_by(by),
    {
        self.sort = if self.sort.0 == by {
            (by, !self.sort.1)
        } else {
            (by, true)
        };
    }

    /// The names of the entries.
    pub fn entry_names(&self) -> (r: Vec<String>)
        ensures
            views(r@) == names_of(self@.entries),
    {
        let mut r: Vec<String> = Vec::new();
        let mut i: usize = 0;
        let ghost all = names_of(self@.entries);
        while i < self.entries.len()
            invariant
                i <= self.entries@.len(),
                all == names_of(models(self.entries@)),
                views(r@) == all.take(i as int),
            decreases self.entries.len() - i,
        {
            let ghost before = views(r@);
            r.push(self.entries[i].name.clone());
            assert(views(r@) =~= before.push(all[i as int]));
            assert(all.take(i + 1) =~= all.take(i as int).push(all[i as int]));
            i += 1;
        }
        assert(all.take(i as int) =~= all);
        r
    }

    /// Shows the files of a listing; what is no longer there is no longer selected.
    pub fn show(&mut self, entries: Vec<Entry>)
        requires
            old(self).wf(),
        ensures
            final(self).wf(),
            final(self)@ == old(self)@.showing(models(entries@)),
    {
        self.entries = entries;
        self.path_text = self.path.clone();
        let names = self.entry_names();
        self.selected.retain(&names);
    }

    /// Selects with a click on a row. `rows` are the names shown, in order;
    /// `primary` tells a plain click from the start of a drag or a right click.
    pub fn click(&mut self, rows: &Vec<String>, name: &str, shift: bool, command: bool, primary: bool)
        requires
            old(self).wf(),
            rows@.len() > 0,
        ensures
            final(self).wf(),
            final(self)@ == old(self)@.clicked(views(rows@), name@, shift, command, primary),
    {
        if shift {
            let anchor: usize = match &self.anchor {
                Some(a) => place_or_first(rows, a.as_str()),
                None => 0,
            };
            let here: usize = place_or_first(rows, name);
            let (a, b): (usize, usize) = if anchor <= here {
                (anchor, here)
            } else {
                (here, anchor)
            };
            let mut range: Vec<String> = Vec::new();
            let mut i: usize = a;
            let ghost all = views(rows@);
            assert(views(range@) =~= all.subrange(a as int, a as int));
            while i <= b
                invariant
                    a <= i <= b + 1,
                    b < rows.len(),
                    all == views(rows@),
                    views(range@) == all.subrange(a as int, i as int),
                decreases b + 1 - i,
            {
                let ghost before = views(range@);
                range.push(rows[i].clone());
                assert(views(range@) =~= before.push(all[i as int]));
                assert(all.subrange(a as int, i + 1) =~= all.subrange(a as int, i as int).push(
                    all[i as int],
                ));
                i += 1;
            }
            self.selected = Names::from_list(&range);
        } else if command && primary {
            if !self.selected.remove(name) {
                proof {
                    crate::names::law_without_name(old(self)@.selected, name@);
                    lemma_without_absent(old(self)@.selected, name@);
                }
                self.selected.insert(name);
            }
            self.anchor = Some(name.to_owned());
        } else if primary || !self.selected.contains(name) {
            let mut one: Vec<String> = Vec::new();
            one.push(name.to_owned());
            assert(views(one@) =~= seq![name@]);
            self.selected = Names::from_list(&one);
            proof {
                assert(seq![name@].drop_last() =~= Seq::empty());
                assert(name_set(Seq::<Seq<char>>::empty()) =~= Seq::empty());
                assert(name_set(seq![name@]) =~= seq![name@]);
            }
            self.anchor = Some(name.to_owned());
        }
    }
}

proof fn lemma_without_absent(s: Seq<Seq<char>>, x: Seq<char>)
    requires
        !s.contains(x),
    ensures
        without_name(s, x) == s,
    decreases s.len(),
{
    reveal(Seq::filter);
    if s.len() > 0 {
        let rest = s.drop_last();
        assert(s[s.len() - 1] != x);
        assert(!rest.contains(x)) by {
            if rest.contains(x) {
                let i = choose|i: int| 0 <= i < rest.len() && rest[i] == x;
                assert(s[i] == x);
            }
        }
        lemma_without_absent(rest, x);
        assert(s =~= rest.push(s.last()));
    } else {
        assert(without_name(s, x) =~= s);
    }
}

/// Where a text first stands in a list, or the first place.
pub open spec fn first_place(s: Seq<Seq<char>>, x: Seq<char>) -> int {
    if s.contains(x) {
        s.index_of_first(x)->0
    } else {
        0
    }
}

fn place_or_first(rows: &Vec<String>, x: &str) -> (r: usize)
    requires
        rows@.len() > 0,
    ensures
        r < rows@.len(),
        r == first_place(views(rows@), x@),
{
    let ghost s = views(rows@);
    proof {
        s.index_of_first_ensures(x@);
    }
    let mut i: usize = 0;
    while i < rows.len()
        invariant
            i <= rows@.len(),
            s == views(rows@),
            forall|j: int| 0 <= j < i ==> #[trigger] s[j] != x@,
            match s.index_of_first(x@) {
                Some(k) => s.contains(x@) && 0 <= k < s.len() && s[k] == x@ && forall|j: int|
                    0 <= j < k ==> s[j] != x@,
                None => !s.contains(x@),
            },
        decreases rows.len() - i,
    {
        if same_str(rows[i].as_str(), x) {
            assert(s[i as int] == x@);
            return i;
        }
        i += 1;
    }
    0
}

impl PanelModel {
    pub open spec fn fresh(path: Seq<char>) -> PanelModel {
        PanelModel {
            path,
            path_text: path,
            entries: Seq::empty(),
            selected: Seq::empty(),
            anchor: None,
            sort: (SortBy::Name, true),
            loading: false,
        }
    }

    /// The panel with the files of its folder; what is no longer there is no
    /// longer selected.
    pub open spec fn showing(self, entries: Seq<EntryModel>) -> PanelModel {
        PanelModel {
            entries,
            path_text: self.path,
            selected: common(self.selected, names_of(entries)),
            ..self
        }
    }

    /// The panel after a click on a row: with Shift the rows from the last one
    /// clicked, with the command key one more or one less, else that row alone (a
    /// drag or a right click on a selected row keeps the selection).
    pub open spec fn clicked(
        self,
        rows: Seq<Seq<char>>,
        name: Seq<char>,
        shift: bool,
        command: bool,
        primary: bool,
    ) -> PanelModel {
        if shift {
            let a = match self.anchor {
                Some(a) => first_place(rows, a),
                None => 0,
            };
            let h = first_place(rows, name);
            let (low, high) = if a <= h {
                (a, h)
            } else {
                (h, a)
            };
            PanelModel { selected: name_set(rows.subrange(low, high + 1)), ..self }
        } else if command && primary {
            PanelModel {
                selected: if self.selected.contains(name) {
                    without_name(self.selected, name)
                } else {
                    with_name(self.selected, name)
                },
                anchor: Some(name),
                ..self
            }
        } else if primary || !self.selected.contains(name) {
            PanelModel { selected: seq![name], anchor: Some(name), ..self }
        } else {
            self
        }
    }
}

/// Two orders of the same files are the same: the order is decided by the
/// files, the column and the direction.
pub proof fn law_one_order(
    sort: (SortBy, bool),
    entries: Seq<EntryModel>,
    lower: Seq<Seq<char>>,
    show_hidden: bool,
    a: Seq<usize>,
    b: Seq<usize>,
    i: int,
)
    requires
        entries.len() <= usize::MAX,
        is_order(sort, entries, lower, show_hidden, a),
        is_order(sort, entries, lower, show_hidden, b),
        0 <= i < a.len(),
    ensures
        i < b.len(),
        a[i] == b[i],
    decreases i,
{
    // The rows before agree; the next one of each occurs in the other, and not before.
    assert forall|k: int| 0 <= k < i implies k < b.len() && #[trigger] a[k] == b[k] by {
        law_one_order(sort, entries, lower, show_hidden, a, b, k);
    }
    let x = a[i];
    assert(shows(entries[x as int], show_hidden));
    assert(b.contains((x as int) as usize));
    let k = choose|k: int| 0 <= k < b.len() && b[k] == x;
    lemma_order_distinct(sort, entries, lower, show_hidden, a);
    lemma_order_distinct(sort, entries, lower, show_hidden, b);
    if k < i {
        assert(a[k] == b[k]);
        assert(a[k] != a[i]);
    }
    assert(k >= i);
    let y = b[i];
    assert(shows(entries[y as int], show_hidden));
    assert(a.contains((y as int) as usize));
    let m = choose|m: int| 0 <= m < a.len() && a[m] == y;
    if m < i {
        assert(b[m] == a[m]);
        assert(b[m] != b[i]);
    }
    if k > i && m > i {
        assert(above(sort, entries, lower, b[i] as int, b[k] as int));
        assert(above(sort, entries, lower, a[i] as int, a[m] as int));
        lemma_less_strict(
            sort,
            entries[x as int],
            entries[y as int],
            lower[x as int],
            lower[y as int],
        );
        lemma_less_strict(
            sort,
            entries[y as int],
            entries[x as int],
            lower[y as int],
            lower[x as int],
        );
    }
}

/// No place occurs twice in an order.
proof fn lemma_order_distinct(
    sort: (SortBy, bool),
    entries: Seq<EntryModel>,
    lower: Seq<Seq<char>>,
    show_hidden: bool,
    rows: Seq<usize>,
)
    requires
        is_order(sort, entries, lower, show_hidden, rows),
    ensures
        forall|p: int, q: int|
            0 <= p < q < rows.len() ==> #[trigger] rows[p] != #[trigger] rows[q],
{
    assert forall|p: int, q: int| 0 <= p < q < rows.len() implies #[trigger] rows[p]
        != #[trigger] rows[q] by {
        assert(above(sort, entries, lower, rows[p] as int, rows[q] as int));
        let x = rows[p] as int;
        lemma_less_strict(sort, entries[x], entries[x], lower[x], lower[x]);
    }
}

/// Directories are listed before files.
pub proof fn law_directories_first(
    sort: (SortBy, bool),
    entries: Seq<EntryModel>,
    lower: Seq<Seq<char>>,
    show_hidden: bool,
    rows: Seq<usize>,
    p: int,
    q: int,
)
    requires
        is_order(sort, entries, lower, show_hidden, rows),
        0 <= p < q < rows.len(),
        entries[rows[q] as int].is_dir,
    ensures
        entries[rows[p] as int].is_dir,
{
    assert(above(sort, entries, lower, rows[p] as int, rows[q] as int));
}

impl PanelModel {
    /// Sorted by a column, or the other way round where it was already.
    pub open spec fn sorted_by(self, by: SortBy) -> PanelModel {
        PanelModel {
            sort: if self.sort.0 == by {
                (by, !self.sort.1)
            } else {
                (by, true)
            },
            ..self
        }
    }
}

} // verus!
