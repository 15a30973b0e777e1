//! The search box over a pane: its text, or the commands typed in it.

use crate::pane::PaneId;
use crate::strings::Strings;
use crate::text::{
    contains_text, decimal, from_chars, has_text, lowercase, push_numeral, split_words, to_chars,
    to_lowercase, views, words,
};
use vstd::prelude::*;

verus! {

/// How many commands are listed.
pub const LISTED: usize = 200;

/// Search box over a pane's command history.
#[derive(Debug)]
pub struct HistorySearch {
    pub tab: usize,
    pub pane: PaneId,
    pub query: String,
    /// The pane's commands, most recent first.
    pub entries: Vec<String>,
    /// The same, lowercased once for filtering.
    pub lower: Vec<String>,
    /// Index in the filtered list.
    pub selected: usize,
    /// Just opened: take the keyboard focus.
    pub fresh: bool,
    /// Searching the displayed text rather than the typed commands.
    pub text: bool,
    /// Local pane: its typed commands can be searched too.
    pub local: bool,
    /// Text mode: (current occurrence, total).
    pub status: (usize, usize),
}

#[verifier::ext_equal]
pub struct SearchModel {
    pub tab: usize,
    pub pane: PaneId,
    pub query: Seq<char>,
    pub entries: Seq<Seq<char>>,
    pub lower: Seq<Seq<char>>,
    pub selected: usize,
    pub fresh: bool,
    pub text: bool,
    pub local: bool,
    pub status: (usize, usize),
}

impl View for HistorySearch {
    type V = SearchModel;

    open spec fn view(&self) -> SearchModel {
        SearchModel {
            tab: self.tab,
            pane: self.pane,
            query: self.query@,
            entries: views(self.entries@),
            lower: views(self.lower@),
            selected: self.selected,
            fresh: self.fresh,
            text: self.text,
            local: self.local,
            status: self.status,
        }
    }
}

/// Texts in lower case.
pub open spec fn lowered(s: Seq<Seq<char>>) -> Seq<Seq<char>> {
    s.map_values(|t: Seq<char>| lowercase(t))
}

/// Whether a text holds every word.
pub open spec fn has_all(t: Seq<char>, words: Seq<Seq<char>>) -> bool {
    forall|i: int| 0 <= i < words.len() ==> has_text(t, #[trigger] words[i])
}

/// The first entries whose other form holds every word.
pub open spec fn holding(
    entries: Seq<Seq<char>>,
    lower: Seq<Seq<char>>,
    words: Seq<Seq<char>>,
    n: nat,
) -> Seq<Seq<char>>
    decreases n,
{
    if n == 0 {
        Seq::empty()
    } else {
        let rest = holding(entries, lower, words, (n - 1) as nat);
        if has_all(lower[n - 1], words) {
            rest.push(entries[n - 1])
        } else {
            rest
        }
    }
}

/// The start of a list, of at most some length.
pub open spec fn at_most<T>(s: Seq<T>, n: int) -> Seq<T> {
    if s.len() <= n {
        s
    } else {
        s.take(n)
    }
}

impl SearchModel {
    /// How many entries there are, each with its other form.
    pub open spec fn count(self) -> nat {
        if self.entries.len() <= self.lower.len() {
            self.entries.len()
        } else {
            self.lower.len()
        }
    }

    /// The commands containing every word typed (case-insensitive), most recent
    /// first, given the words in lower case.
    pub open spec fn matching(self, words: Seq<Seq<char>>) -> Seq<Seq<char>> {
        at_most(holding(self.entries, self.lower, words, self.count()), LISTED as int)
    }

    /// The commands to list.
    pub open spec fn listed(self) -> Seq<Seq<char>> {
        self.matching(lowered(words(self.query)))
    }
}

fn holds_all(t: &Vec<char>, words: &Vec<String>) -> (r: bool)
    ensures
        r == has_all(t@, views(words@)),
{
    let mut i: usize = 0;
    while i < words.len()
        invariant
            i <= words@.len(),
            forall|j: int| 0 <= j < i ==> has_text(t@, #[trigger] views(words@)[j]),
        decreases words.len() - i,
    {
        let w = to_chars(words[i].as_str());
        if !contains_text(t, &w) {
            assert(!has_text(t@, views(words@)[i as int]));
            return false;
        }
        i += 1;
    }
    true
}

fn lower_all(list: &Vec<String>) -> (r: Vec<String>)
    ensures
        views(r@) == lowered(views(list@)),
{
    let mut r: Vec<String> = Vec::new();
    let mut i: usize = 0;
    let ghost all = lowered(views(list@));
    while i < list.len()
        invariant
            i <= list@.len(),
            all == lowered(views(list@)),
            views(r@) == all.take(i as int),
        decreases list.len() - i,
    {
        let ghost before = views(r@);
        let l = to_lowercase(list[i].as_str());
        r.push(l);
        assert(views(r@) =~= before.push(l@));
        assert(all.take(i + 1) =~= all.take(i as int).push(all[i as int]));
        i += 1;
    }
    assert(all.take(i as int) =~= all);
    r
}

impl HistorySearch {
    /// The search box of a pane, just opened. Only the text of a remote pane can be
    /// searched.
    pub fn new(tab: usize, pane: PaneId, entries: Vec<String>, text: bool, local: bool) -> (r:
        HistorySearch)
        ensures
            r@ == (SearchModel {
                tab,
                pane,
                query: Seq::empty(),
                entries: views(entries@),
                lower: lowered(views(entries@)),
                selected: 0,
                fresh: true,
                text: text || !local,
                local,
                status: (0, 0),
            }),
            r@ == SearchModel::opened(tab, pane, views(entries@), text, local),
    {
        let lower = lower_all(&entries);
        let query = String::new();
        assert(query@ =~= Seq::empty());
        HistorySearch {
            tab,
            pane,
            query,
            entries,
            lower,
            selected: 0,
            fresh: true,
            text: text || !local,
            local,
            status: (0, 0),
        }
    }

    /// Commands containing every one of some words, given in lower case, most recent first.
    pub fn matching(&self, words: &Vec<String>) -> (r: Vec<String>)
        ensures
            views(r@) == self@.matching(views(words@)),
    {
        let ghost w = views(words@);
        let mut r: Vec<String> = Vec::new();
        let mut i: usize = 0;
        assert(views(r@) =~= Seq::empty());
        while i < self.entries.len() && i < self.lower.len()
            invariant
                i <= self.entries@.len(),
                i <= self.lower@.len(),
                w == views(words@),
                views(r@) == holding(self@.entries, self@.lower, w, i as nat),
            decreases self.entries.len() - i,
        {
            let ghost before = views(r@);
            let t = to_chars(self.lower[i].as_str());
            assert(t@ == self@.lower[i as int]);
            if holds_all(&t, words) {
                r.push(self.entries[i].clone());
                assert(views(r@) =~= before.push(self@.entries[i as int]));
            }
            i += 1;
        }
        assert(i == self@.count());
        if r.len() > LISTED {
            let ghost before = r@;
            r.truncate(LISTED);
            assert(views(r@) =~= views(before).take(LISTED as int));
        }
        r
    }

    /// Commands containing every word typed (case-insensitive), most recent first.
    pub fn matches(&self) -> (r: Vec<String>)
        ensures
            views(r@) == self@.listed(),
    {
        let parts = split_words(&to_chars(self.query.as_str()));
        let ghost all = words(self.query@);
        let mut list: Vec<String> = Vec::new();
        let mut i: usize = 0;
        while i < parts.len()
            invariant
                i <= parts@.len(),
                crate::text::char_views(parts@) == all,
                views(list@) == all.take(i as int),
            decreases parts.len() - i,
        {
            let ghost before = views(list@);
            let w = from_chars(&parts[i]);
            assert(w@ == all[i as int]);
            list.push(w);
            assert(views(list@) =~= before.push(w@));
            assert(all.take(i + 1) =~= all.take(i as int).push(all[i as int]));
            i += 1;
        }
        assert(parts@.len() == all.len());
        assert(all.take(i as int) =~= all);
        let lower = lower_all(&list);
        self.matching(&lower)
    }

    /// Moves the selection among the commands listed, of which there are `count`.
    pub fn arrow(&mut self, up: bool, down: bool, count: usize)
        ensures
            final(self)@ == (SearchModel {
                selected: if old(self).text {
                    old(self).selected
                } else {
                    moved(old(self).selected, up, down, count)
                },
                ..old(self)@
            }),
            final(self)@ == old(self)@.arrowed(up, down, count),
    {
        if !self.text {
            if up && self.selected > 0 {
                self.selected = self.selected - 1;
            }
            if down && count > 0 {
                self.selected = if self.selected >= count - 1 {
                    count - 1
                } else {
                    self.selected + 1
                };
            }
        }
    }

    /// Switches to searching the displayed text or the typed commands. Gives what to
    /// find in the text: what was typed, or nothing any more.
    pub fn switch(&mut self, text: bool) -> (find: Option<String>)
        ensures
            crate::text::opt_view(find) == if text == old(self).text {
                None
            } else if text {
                Some(old(self)@.query)
            } else {
                Some(Seq::empty())
            },
            final(self)@ == if text == old(self).text {
                old(self)@
            } else {
                SearchModel { text, fresh: true, ..old(self)@ }
            },
            final(self)@ == old(self)@.switched(text),
            crate::text::opt_view(find) == old(self)@.found_after_switch(text),
    {
        if text == self.text {
            return None;
        }
        self.text = text;
        self.fresh = true;
        if text {
            Some(self.query.clone())
        } else {
            let none = String::new();
            assert(none@ =~= Seq::empty());
            Some(none)
        }
    }

    /// Types another query. Gives what to find in the text.
    pub fn type_query(&mut self, query: String) -> (find: Option<String>)
        ensures
            final(self)@ == (SearchModel { query: query@, selected: 0, ..old(self)@ }),
            crate::text::opt_view(find) == if old(self).text {
                Some(query@)
            } else {
                None
            },
            final(self)@ == old(self)@.queried(query@),
            crate::text::opt_view(find) == old(self)@.found_after_query(query@),
    {
        let find = if self.text {
            Some(query.clone())
        } else {
            None
        };
        self.query = query;
        self.selected = 0;
        find
    }

    /// Which occurrence keys go to in the text: the older one (true) or the newer one.
    pub fn text_step(&self, up: bool, down: bool, newer: bool, enter: bool) -> (older: Option<bool>)
        ensures
            older == if !self.text {
                None
            } else if newer || down {
                Some(false)
            } else if enter || up {
                Some(true)
            } else {
                None
            },
            older == self@.stepping(up, down, newer, enter),
    {
        if !self.text {
            None
        } else if newer || down {
            Some(false)
        } else if enter || up {
            Some(true)
        } else {
            None
        }
    }

    /// The command that Enter writes at the prompt, or Cmd+Enter runs.
    pub fn chosen(&self, enter: bool, run: bool) -> (r: Option<(String, bool)>)
        ensures
            match r {
                Some(c) => !self.text && (enter || run) && self.selected < self@.listed().len() && c.0@
                    == self@.listed()[self.selected as int] && c.1 == run,
                None => self.text || !(enter || run) || self.selected >= self@.listed().len(),
            },
            match r {
                Some(c) => self@.choice(enter, run) == Some((c.0@, c.1)),
                None => self@.choice(enter, run) is None,
            },
    {
        if self.text || !(enter || run) {
            return None;
        }
        let matches = self.matches();
        assert(matches@.len() == self@.listed().len());
        if self.selected < matches.len() {
            Some((matches[self.selected].clone(), run))
        } else {
            None
        }
    }

    /// What is shown of the occurrences found.
    pub fn status_text(&self, t: &Strings) -> (r: String)
        ensures
            r@ == if self@.query.len() == 0 {
                Seq::empty()
            } else if self.status.1 == 0 {
                t.search_none@
            } else {
                decimal(self.status.0 as nat) + " / "@ + decimal(self.status.1 as nat)
            },
            r@ == self@.status_shown(*t),
    {
        let (current, total) = self.status;
        if to_chars(self.query.as_str()).len() == 0 {
            let none = String::new();
            assert(none@ =~= Seq::empty());
            none
        } else if total == 0 {
            t.search_none.to_owned()
        } else {
            let mut r = String::new();
            push_numeral(&mut r, current as u64, 10);
            r.push_str(" / ");
            push_numeral(&mut r, total as u64, 10);
            assert(r@ =~= decimal(current as nat) + " / "@ + decimal(total as nat));
            r
        }
    }
}

/// Where the selection moves in a list of some length.
pub open spec fn moved(selected: usize, up: bool, down: bool, count: usize) -> usize {
    let s = if up && selected > 0 {
        (selected - 1) as usize
    } else {
        selected
    };
    if down && count > 0 {
        if s >= count - 1 {
            (count - 1) as usize
        } else {
            (s + 1) as usize
        }
    } else {
        s
    }
}

/// The commands listed are among those of the pane, at most as many as are listed,
/// and each holds every word looked for.
pub proof fn law_matches(m: SearchModel, w: Seq<Seq<char>>, i: int)
    requires
        m.lower == lowered(m.entries),
        0 <= i < m.matching(w).len(),
    ensures
        m.matching(w).len() <= LISTED,
        m.entries.contains(m.matching(w)[i]),
        has_all(lowercase(m.matching(w)[i]), w),
{
    lemma_holding(m.entries, m.lower, w, m.count(), i);
}

proof fn lemma_holding(
    entries: Seq<Seq<char>>,
    lower: Seq<Seq<char>>,
    w: Seq<Seq<char>>,
    n: nat,
    i: int,
)
    requires
        lower == lowered(entries),
        n <= entries.len(),
        0 <= i < holding(entries, lower, w, n).len(),
    ensures
        entries.contains(holding(entries, lower, w, n)[i]),
        has_all(lowercase(holding(entries, lower, w, n)[i]), w),
    decreases n,
{
    if n > 0 {
        let rest = holding(entries, lower, w, (n - 1) as nat);
        if i < rest.len() {
            lemma_holding(entries, lower, w, (n - 1) as nat, i);
        } else {
            assert(entries[n - 1] == holding(entries, lower, w, n)[i]);
        }
    }
}

/// With nothing typed, every command of a short history is listed.
pub proof fn law_empty_query(m: SearchModel)
    requires
        m.lower == lowered(m.entries),
        m.entries.len() <= LISTED,
    ensures
        m.matching(Seq::empty()) == m.entries,
{
    lemma_holding_all(m.entries, m.lower, m.entries.len());
    assert(m.entries.take(m.entries.len() as int) =~= m.entries);
}

proof fn lemma_holding_all(entries: Seq<Seq<char>>, lower: Seq<Seq<char>>, n: nat)
    requires
        n <= entries.len(),
    ensures
        holding(entries, lower, Seq::empty(), n) == entries.take(n as int),
    decreases n,
{
    if n > 0 {
        lemma_holding_all(entries, lower, (n - 1) as nat);
        assert(entries.take(n as int) =~= entries.take(n - 1).push(entries[n - 1]));
    } else {
        assert(entries.take(0) =~= Seq::empty());
    }
}

/// A selection that is in the list stays in it.
pub proof fn law_selection_stays(selected: usize, up: bool, down: bool, count: usize)
    requires
        selected < count,
    ensures
        moved(selected, up, down, count) < count,
{
}

impl SearchModel {
    /// A search that was just opened.
    pub open spec fn opened(
        tab: usize,
        pane: PaneId,
        entries: Seq<Seq<char>>,
        text: bool,
        local: bool,
    ) -> SearchModel {
        SearchModel {
            tab,
            pane,
            query: Seq::empty(),
            entries,
            lower: lowered(entries),
            selected: 0,
            fresh: true,
            text: text || !local,
            local,
            status: (0, 0),
        }
    }

    /// After an arrow key.
    pub open spec fn arrowed(self, up: bool, down: bool, count: usize) -> SearchModel {
        SearchModel {
            selected: if self.text {
                self.selected
            } else {
                moved(self.selected, up, down, count)
            },
            ..self
        }
    }

    /// Searching the text, or the commands.
    pub open spec fn switched(self, text: bool) -> SearchModel {
        if text == self.text {
            self
        } else {
            SearchModel { text, fresh: true, ..self }
        }
    }

    /// What is then looked for in the text.
    pub open spec fn found_after_switch(self, text: bool) -> Option<Seq<char>> {
        if text == self.text {
            None
        } else if text {
            Some(self.query)
        } else {
            Some(Seq::empty())
        }
    }

    /// With another query.
    pub open spec fn queried(self, query: Seq<char>) -> SearchModel {
        SearchModel { query, selected: 0, ..self }
    }

    /// What is then looked for in the text.
    pub open spec fn found_after_query(self, query: Seq<char>) -> Option<Seq<char>> {
        if self.text {
            Some(query)
        } else {
            None
        }
    }

    /// Whether a key goes to the occurrence before, or to the one after.
    pub open spec fn stepping(self, up: bool, down: bool, newer: bool, enter: bool) -> Option<bool> {
        if !self.text {
            None
        } else if newer || down {
            Some(false)
        } else if enter || up {
            Some(true)
        } else {
            None
        }
    }

    /// The command that a key chose, and whether it is run.
    pub open spec fn choice(self, enter: bool, run: bool) -> Option<(Seq<char>, bool)> {
        if !self.text && (enter || run) && self.selected < self.listed().len() {
            Some((self.listed()[self.selected as int], run))
        } else {
            None
        }
    }

    /// Which occurrence of how many is shown.
    pub open spec fn status_shown(self, t: Strings) -> Seq<char> {
        if self.query.len() == 0 {
            Seq::empty()
        } else if self.status.1 == 0 {
            t.search_none@
        } else {
            decimal(self.status.0 as nat) + " / "@ + decimal(self.status.1 as nat)
        }
    }
}

} // verus!
