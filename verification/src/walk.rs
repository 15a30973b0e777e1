//! Walking a remote tree: which folders to read, which paths to take, and when
//! to stop. The server answers; what it claims is not believed.

use crate::model::{lemma_push, models, Duplicate};
use crate::sftp::{join, joined_path, plain_name, valid_name, Attrs, AttrsModel};
use crate::shortcut::Platform;
use crate::text::{holds, same_str, views};
use vstd::prelude::*;

verus! {

/// Limits on a recursive walk, against endless or huge trees (a server can claim anything).
pub const MAX_DEPTH: usize = 64;

pub const MAX_ENTRIES: usize = 1_000_000;

/// A path that was met, with what the server says of it.
#[derive(Debug)]
pub struct Found {
    pub path: String,
    pub attrs: Attrs,
}

#[verifier::ext_equal]
pub struct FoundModel {
    pub path: Seq<char>,
    pub attrs: AttrsModel,
}

impl View for Found {
    type V = FoundModel;

    open spec fn view(&self) -> FoundModel {
        FoundModel { path: self.path@, attrs: self.attrs@ }
    }
}

impl Duplicate for Found {
    fn duplicate(&self) -> (r: Self) {
        Found { path: self.path.clone(), attrs: self.attrs.duplicate() }
    }
}

/// A folder to read, and how deep it lies.
#[derive(Debug)]
pub struct Folder {
    pub path: String,
    pub depth: usize,
}

impl View for Folder {
    type V = (Seq<char>, usize);

    open spec fn view(&self) -> (Seq<char>, usize) {
        (self.path@, self.depth)
    }
}

/// Why a walk stops.
#[derive(Clone, Copy, PartialEq, Eq, Structural, Debug)]
pub enum WalkError {
    /// The server sent a name that is no plain file name.
    SuspectName,
    TooDeep,
    TooMany,
}

/// What to do about a file met in a folder.
#[derive(Debug)]
pub enum Step {
    /// Nothing: the folder itself or its parent.
    Skip,
    /// It claims to be a folder: ask for the entry itself, which may be a link.
    Ask(String),
    /// It was taken.
    Taken,
    Stop(WalkError),
}

#[verifier::ext_equal]
pub enum StepModel {
    Skip,
    Ask(Seq<char>),
    Taken,
    Stop(WalkError),
}

impl View for Step {
    type V = StepModel;

    open spec fn view(&self) -> StepModel {
        match *self {
            Step::Skip => StepModel::Skip,
            Step::Ask(p) => StepModel::Ask(p@),
            Step::Taken => StepModel::Taken,
            Step::Stop(e) => StepModel::Stop(e),
        }
    }
}

/// A walk under way.
#[derive(Debug)]
pub struct Walk {
    /// Every path met, directories before their contents.
    pub out: Vec<Found>,
    /// Folders still to read.
    pub stack: Vec<Folder>,
    /// Folders read.
    pub visited: Vec<String>,
    /// The folder being read.
    pub current: Folder,
}

#[verifier::ext_equal]
pub struct WalkModel {
    pub out: Seq<FoundModel>,
    pub stack: Seq<(Seq<char>, usize)>,
    pub visited: Seq<Seq<char>>,
    pub current: (Seq<char>, usize),
}

impl View for Walk {
    type V = WalkModel;

    open spec fn view(&self) -> WalkModel {
        WalkModel {
            out: models(self.out@),
            stack: models(self.stack@),
            visited: views(self.visited@),
            current: self.current@,
        }
    }
}

/// Whether a path is a folder of its own, and not a link to one.
pub open spec fn true_folder(a: AttrsModel) -> bool {
    a.dir && !a.link
}

/// Whether a path was met, among the first `n`, as a folder of its own.
pub open spec fn opened(out: Seq<FoundModel>, n: int, path: Seq<char>) -> bool {
    exists|j: int|
        0 <= j < n && (#[trigger] out[j]).path == path && true_folder(out[j].attrs)
}

/// Whether a path is a plain name in a folder.
pub open spec fn child_of(path: Seq<char>, dir: Seq<char>, platform: Platform) -> bool {
    exists|name: Seq<char>|
        plain_name(name, platform) && path == #[trigger] joined_path(dir, name)
}

/// Whether the path at `i` is in a folder that was met before it.
pub open spec fn rooted(out: Seq<FoundModel>, i: int, platform: Platform) -> bool {
    exists|dir: Seq<char>|
        #[trigger] opened(out, i, dir) && child_of(out[i].path, dir, platform)
}

impl WalkModel {
    /// What holds throughout a walk: each path but the first is a plain name in
    /// a folder met before it, which is no link; only such folders are read, none
    /// deeper than the limit; and there are not too many paths.
    pub open spec fn wf(self, platform: Platform) -> bool {
        &&& 0 < self.out.len() <= MAX_ENTRIES
        &&& forall|i: int| 0 < i < self.out.len() ==> #[trigger] rooted(self.out, i, platform)
        &&& forall|k: int|
            0 <= k < self.stack.len() ==> (#[trigger] self.stack[k]).1 <= MAX_DEPTH && opened(
                self.out,
                self.out.len() as int,
                self.stack[k].0,
            )
    }

    /// Whether the folder being read was met as one.
    pub open spec fn reading(self) -> bool {
        self.current.1 <= MAX_DEPTH && opened(self.out, self.out.len() as int, self.current.0)
    }

    /// The walk that starts at a root.
    pub open spec fn start(root: Seq<char>, attrs: AttrsModel) -> WalkModel {
        WalkModel {
            out: seq![FoundModel { path: root, attrs }],
            stack: if true_folder(attrs) {
                seq![(root, 0usize)]
            } else {
                Seq::empty()
            },
            visited: Seq::empty(),
            current: (root, 0usize),
        }
    }

    /// The walk after looking for the next folder that was not read yet, from the
    /// top of the stack, and that folder.
    pub open spec fn advanced(self) -> (WalkModel, bool)
        decreases self.stack.len(),
    {
        if self.stack.len() == 0 {
            (self, false)
        } else {
            let top = self.stack.last();
            let rest = WalkModel { stack: self.stack.drop_last(), ..self };
            if self.visited.contains(top.0) {
                rest.advanced()
            } else {
                (
                    WalkModel { visited: self.visited.push(top.0), current: top, ..rest },
                    true,
                )
            }
        }
    }

    /// The walk after taking a path of the folder being read, and what that gives.
    pub open spec fn taken(self, path: Seq<char>, attrs: AttrsModel) -> (WalkModel, StepModel) {
        if true_folder(attrs) && self.current.1 >= MAX_DEPTH {
            (self, StepModel::Stop(WalkError::TooDeep))
        } else {
            let after = WalkModel {
                stack: if true_folder(attrs) {
                    self.stack.push((path, (self.current.1 + 1) as usize))
                } else {
                    self.stack
                },
                out: self.out.push(FoundModel { path, attrs }),
                ..self
            };
            (
                after,
                if after.out.len() <= MAX_ENTRIES {
                    StepModel::Taken
                } else {
                    StepModel::Stop(WalkError::TooMany)
                },
            )
        }
    }

    /// The walk after meeting a name in the folder being read, and what to do.
    pub open spec fn met(self, name: Seq<char>, attrs: AttrsModel, platform: Platform) -> (
        WalkModel,
        StepModel,
    ) {
        let path = joined_path(self.current.0, name);
        if name == "."@ || name == ".."@ {
            (self, StepModel::Skip)
        } else if !plain_name(name, platform) {
            (self, StepModel::Stop(WalkError::SuspectName))
        } else if attrs.dir {
            (self, StepModel::Ask(path))
        } else {
            self.taken(path, attrs)
        }
    }
}

/// Whether the target of the root is to be read instead: a link chosen by the
/// user (not one met inside a folder) is followed for transfers.
pub fn follows(attrs: &Attrs, follow_root: bool) -> (r: bool)
    ensures
        r == (follow_root && attrs.link),
        r == followed(attrs.link, follow_root),
{
    follow_root && attrs.link
}

impl Walk {
    /// Starts a walk at `root`.
    pub fn new(root: &str, attrs: Attrs) -> (r: Walk)
        ensures
            r@ == WalkModel::start(root@, attrs@),
    {
        let mut stack: Vec<Folder> = Vec::new();
        if attrs.dir && !attrs.link {
            stack.push(Folder { path: root.to_owned(), depth: 0 });
        }
        let mut out: Vec<Found> = Vec::new();
        out.push(Found { path: root.to_owned(), attrs });
        let r = Walk {
            out,
            stack,
            visited: Vec::new(),
            current: Folder { path: root.to_owned(), depth: 0 },
        };
        proof {
            let m = WalkModel::start(root@, attrs@);
            assert(r@.out =~= m.out);
            assert(r@.stack =~= m.stack);
            assert(r@.visited =~= m.visited);
            assert(r@ =~= m);
        }
        r
    }

    /// Goes on to the next folder to read, if there is one.
    pub fn next(&mut self) -> (more: bool)
        ensures
            (final(self)@, more) == old(self)@.advanced(),
        decreases old(self).stack@.len(),
    {
        let ghost before = self@;
        match self.stack.pop() {
            None => false,
            Some(top) => {
                proof {
                    assert(models(self.stack@) =~= before.stack.drop_last());
                    assert(before.stack.last() == top@);
                    assert(self@ =~= WalkModel { stack: before.stack.drop_last(), ..before });
                }
                if holds(&self.visited, top.path.as_str()) {
                    return self.next();
                }
                self.visited.push(top.path.clone());
                self.current = top;
                assert(views(self.visited@) =~= before.visited.push(top.path@));
                true
            },
        }
    }

    /// Takes a path of the folder being read.
    pub fn take(&mut self, path: &str, attrs: Attrs) -> (r: Step)
        ensures
            (final(self)@, r@) == old(self)@.taken(path@, attrs@),
    {
        let ghost before = self@;
        if attrs.dir && !attrs.link {
            if self.current.depth >= MAX_DEPTH {
                return Step::Stop(WalkError::TooDeep);
            }
            let ghost s = self.stack@;
            let folder = Folder { path: path.to_owned(), depth: self.current.depth + 1 };
            self.stack.push(folder);
            proof {
                lemma_push(s, folder);
            }
        }
        let ghost o = self.out@;
        let found = Found { path: path.to_owned(), attrs };
        self.out.push(found);
        proof {
            lemma_push(o, found);
            assert(self@ =~= before.taken(path@, attrs@).0);
        }
        if self.out.len() <= MAX_ENTRIES {
            Step::Taken
        } else {
            Step::Stop(WalkError::TooMany)
        }
    }

    /// Meets a name in the folder being read.
    pub fn meet(&mut self, name: &str, attrs: Attrs, platform: Platform) -> (r: Step)
        ensures
            (final(self)@, r@) == old(self)@.met(name@, attrs@, platform),
    {
        if same_str(name, ".") || same_str(name, "..") {
            return Step::Skip;
        }
        if !valid_name(name, platform) {
            return Step::Stop(WalkError::SuspectName);
        }
        let path = join(self.current.path.as_str(), name);
        if attrs.dir {
            return Step::Ask(path);
        }
        self.take(path.as_str(), attrs)
    }
}

/// More paths leave what was met in place.
proof fn lemma_opened_push(out: Seq<FoundModel>, n: int, path: Seq<char>, f: FoundModel)
    requires
        opened(out, n, path),
        n <= out.len(),
    ensures
        opened(out.push(f), n, path),
        opened(out.push(f), n + 1, path),
{
    let j = choose|j: int|
        0 <= j < n && (#[trigger] out[j]).path == path && true_folder(out[j].attrs);
    assert(out.push(f)[j] == out[j]);
}

/// A walk starts well formed.
pub proof fn law_start_of_walk(root: Seq<char>, attrs: AttrsModel, platform: Platform)
    ensures
        WalkModel::start(root, attrs).wf(platform),
{
    let m = WalkModel::start(root, attrs);
    assert(m.out[0].path == root);
}

/// Going on keeps a walk well formed, and the folder it goes to was met as one.
pub proof fn law_next_keeps_walk(w: WalkModel, platform: Platform)
    requires
        w.wf(platform),
    ensures
        w.advanced().0.wf(platform),
        w.advanced().0.out == w.out,
        w.advanced().1 ==> w.advanced().0.reading(),
    decreases w.stack.len(),
{
    if w.stack.len() > 0 {
        let top = w.stack.last();
        let rest = WalkModel { stack: w.stack.drop_last(), ..w };
        assert(w.stack[w.stack.len() - 1] == top);
        assert forall|k: int| 0 <= k < rest.stack.len() implies (#[trigger] rest.stack[k]).1
            <= MAX_DEPTH && opened(rest.out, rest.out.len() as int, rest.stack[k].0) by {
            assert(rest.stack[k] == w.stack[k]);
        }
        if w.visited.contains(top.0) {
            law_next_keeps_walk(rest, platform);
        } else {
            let after = w.advanced().0;
            assert forall|k: int| 0 <= k < after.stack.len() implies (#[trigger] after.stack[k]).1
                <= MAX_DEPTH && opened(after.out, after.out.len() as int, after.stack[k].0) by {
                assert(after.stack[k] == w.stack[k]);
            }
        }
    }
}

/// Taking a plain name of the folder being read keeps a walk well formed.
pub proof fn law_take_keeps_walk(
    w: WalkModel,
    name: Seq<char>,
    attrs: AttrsModel,
    platform: Platform,
)
    requires
        w.wf(platform),
        w.reading(),
        plain_name(name, platform),
    ensures
        w.taken(joined_path(w.current.0, name), attrs).1 is Taken ==> w.taken(
            joined_path(w.current.0, name),
            attrs,
        ).0.wf(platform) && w.taken(joined_path(w.current.0, name), attrs).0.reading(),
{
    let path = joined_path(w.current.0, name);
    let (after, step) = w.taken(path, attrs);
    if step is Taken {
        let f = FoundModel { path, attrs };
        let n = w.out.len() as int;
        assert(after.out == w.out.push(f));
        lemma_opened_push(w.out, n, w.current.0, f);
        assert(child_of(path, w.current.0, platform));
        assert forall|i: int| 0 < i < after.out.len() implies #[trigger] rooted(
            after.out,
            i,
            platform,
        ) by {
            if i < n {
                assert(rooted(w.out, i, platform));
                let dir = choose|dir: Seq<char>| #[trigger]
                    opened(w.out, i, dir) && child_of(w.out[i].path, dir, platform);
                lemma_opened_push(w.out, i, dir, f);
                assert(after.out[i] == w.out[i]);
            } else {
                assert(opened(after.out, i, w.current.0));
            }
        }
        assert forall|k: int| 0 <= k < after.stack.len() implies (#[trigger] after.stack[k]).1
            <= MAX_DEPTH && opened(after.out, after.out.len() as int, after.stack[k].0) by {
            if k < w.stack.len() {
                assert(after.stack[k] == w.stack[k]);
                lemma_opened_push(w.out, n, w.stack[k].0, f);
            } else {
                assert(after.out[n].path == path && true_folder(after.out[n].attrs));
            }
        }
    }
}

/// A path under the root of a walk: the root itself, or below it.
pub open spec fn under(path: Seq<char>, root: Seq<char>) -> bool {
    path == root || (path.len() > root.len() && crate::text::begins(path, root))
}

/// Every path of a walk is under its root: the first one.
pub proof fn law_walk_stays_under_root(w: WalkModel, platform: Platform, i: int)
    requires
        w.wf(platform),
        0 <= i < w.out.len(),
    ensures
        under(w.out[i].path, w.out[0].path),
    decreases i,
{
    if i > 0 {
        assert(rooted(w.out, i, platform));
        let dir = choose|dir: Seq<char>| #[trigger]
            opened(w.out, i, dir) && child_of(w.out[i].path, dir, platform);
        let j = choose|j: int|
            0 <= j < i && (#[trigger] w.out[j]).path == dir && true_folder(w.out[j].attrs);
        law_walk_stays_under_root(w, platform, j);
        let name = choose|name: Seq<char>|
            plain_name(name, platform) && w.out[i].path == #[trigger] joined_path(dir, name);
        crate::sftp::law_join_is_below(dir, name, platform);
        let root = w.out[0].path;
        let path = w.out[i].path;
        assert(path.take(root.len() as int) =~= dir.take(root.len() as int));
        if dir == root {
            assert(dir.take(root.len() as int) =~= root);
        }
    }
}

impl WalkModel {
    /// Whether a path was read or is still to be read.
    pub open spec fn knows(self, path: Seq<char>) -> bool {
        self.visited.contains(path) || exists|k: int|
            0 <= k < self.stack.len() && (#[trigger] self.stack[k]).0 == path
    }

    /// Whether no folder met is forgotten: each was read or is still to be read. None was
    /// read twice.
    pub open spec fn complete(self) -> bool {
        &&& forall|i: int|
            0 <= i < self.out.len() && true_folder((#[trigger] self.out[i]).attrs) ==> self.knows(
                self.out[i].path,
            )
        &&& self.visited.no_duplicates()
    }
}

/// A walk starts with no folder forgotten.
pub proof fn law_start_is_complete(root: Seq<char>, attrs: AttrsModel)
    ensures
        WalkModel::start(root, attrs).complete(),
{
    let w = WalkModel::start(root, attrs);
    if true_folder(attrs) {
        assert(w.stack[0].0 == root);
    }
}

/// Whatever a walk meets, it forgets no folder.
pub proof fn law_meeting_forgets_none(
    w: WalkModel,
    name: Seq<char>,
    path: Seq<char>,
    attrs: AttrsModel,
    platform: Platform,
)
    requires
        w.complete(),
    ensures
        w.taken(path, attrs).0.complete(),
        w.met(name, attrs, platform).0.complete(),
{
    lemma_taken_complete(w, path, attrs);
    lemma_taken_complete(w, joined_path(w.current.0, name), attrs);
}

proof fn lemma_taken_complete(w: WalkModel, path: Seq<char>, attrs: AttrsModel)
    requires
        w.complete(),
    ensures
        w.taken(path, attrs).0.complete(),
{
    let after = w.taken(path, attrs).0;
    assert forall|i: int|
        0 <= i < after.out.len() && true_folder(
            (#[trigger] after.out[i]).attrs,
        ) implies after.knows(after.out[i].path) by {
        if i < w.out.len() {
            assert(after.out[i] == w.out[i]);
            if !w.visited.contains(w.out[i].path) {
                let k = choose|k: int|
                    0 <= k < w.stack.len() && (#[trigger] w.stack[k]).0 == w.out[i].path;
                assert(after.stack[k] == w.stack[k]);
            }
        } else {
            assert(after.stack[w.stack.len() as int].0 == path);
        }
    }
}

/// Going on forgets no folder; where there is none to go on to, every folder that the
/// walk met was read, and read once.
pub proof fn law_finished_walk_read_all(w: WalkModel)
    requires
        w.complete(),
    ensures
        w.advanced().0.complete(),
        !w.advanced().1 ==> forall|i: int|
            0 <= i < w.out.len() && true_folder((#[trigger] w.out[i]).attrs)
                ==> w.advanced().0.visited.contains(w.out[i].path),
    decreases w.stack.len(),
{
    if w.stack.len() == 0 {
        assert forall|i: int|
            0 <= i < w.out.len() && true_folder(
                (#[trigger] w.out[i]).attrs,
            ) implies w.visited.contains(w.out[i].path) by {
            assert(w.knows(w.out[i].path));
        }
    } else {
        let top = w.stack.last();
        let rest = WalkModel { stack: w.stack.drop_last(), ..w };
        let read = WalkModel { visited: w.visited.push(top.0), current: top, ..rest };
        assert forall|i: int|
            0 <= i < w.out.len() && true_folder((#[trigger] w.out[i]).attrs) implies {
            &&& w.visited.contains(top.0) ==> rest.knows(w.out[i].path)
            &&& read.knows(w.out[i].path)
        } by {
            let path = w.out[i].path;
            assert(w.knows(path));
            if w.visited.contains(path) {
                let k = choose|k: int| 0 <= k < w.visited.len() && w.visited[k] == path;
                assert(read.visited[k] == path);
            } else {
                let k = choose|k: int| 0 <= k < w.stack.len() && (#[trigger] w.stack[k]).0 == path;
                if k < rest.stack.len() {
                    assert(rest.stack[k].0 == path);
                    assert(read.stack[k].0 == path);
                } else {
                    assert(read.visited[w.visited.len() as int] == path);
                }
            }
        }
        if w.visited.contains(top.0) {
            law_finished_walk_read_all(rest);
        }
    }
}

/// What to delete: the paths of a walk, contents before their directory.
pub open spec fn removal_order(out: Seq<FoundModel>) -> Seq<(Seq<char>, bool)> {
    out.reverse().map_values(|f: FoundModel| (f.path, f.attrs.dir))
}

/// A path to delete, and whether it is a directory.
#[derive(Debug)]
pub struct Removal {
    pub path: String,
    pub dir: bool,
}

impl View for Removal {
    type V = (Seq<char>, bool);

    open spec fn view(&self) -> (Seq<char>, bool) {
        (self.path@, self.dir)
    }
}

/// The order in which to delete what a walk met.
pub fn remove(out: &Vec<Found>) -> (r: Vec<Removal>)
    ensures
        models(r@) == removal_order(models(out@)),
{
    let mut r: Vec<Removal> = Vec::new();
    let mut i: usize = out.len();
    let ghost all = removal_order(models(out@));
    while i > 0
        invariant
            i <= out@.len(),
            all == removal_order(models(out@)),
            r@.len() == out@.len() - i,
            forall|j: int| 0 <= j < r@.len() ==> (#[trigger] r@[j])@ == all[j],
        decreases i,
    {
        i -= 1;
        r.push(Removal { path: out[i].path.clone(), dir: out[i].attrs.dir });
    }
    assert(models(r@) =~= all);
    r
}

/// The paths whose permissions change: all but links, which would be followed
/// and may point anywhere.
pub open spec fn chmod_paths(out: Seq<FoundModel>) -> Seq<Seq<char>>
    decreases out.len(),
{
    if out.len() == 0 {
        Seq::empty()
    } else if out.last().attrs.link {
        chmod_paths(out.drop_last())
    } else {
        chmod_paths(out.drop_last()).push(out.last().path)
    }
}

/// The paths of a walk whose permissions are to change.
pub fn chmod(out: &Vec<Found>) -> (r: Vec<String>)
    ensures
        views(r@) == chmod_paths(models(out@)),
{
    let mut r: Vec<String> = Vec::new();
    let mut i: usize = 0;
    let ghost all = models(out@);
    assert(all.take(0) =~= Seq::empty());
    assert(views(r@) =~= Seq::empty());
    while i < out.len()
        invariant
            i <= out@.len(),
            all == models(out@),
            views(r@) == chmod_paths(all.take(i as int)),
        decreases out.len() - i,
    {
        assert(all.take(i + 1).drop_last() =~= all.take(i as int));
        if !out[i].attrs.link {
            let ghost before = views(r@);
            r.push(out[i].path.clone());
            assert(views(r@) =~= before.push(out@[i as int].path@));
        }
        i += 1;
    }
    assert(all.take(i as int) =~= all);
    r
}

/// A directory is deleted after everything that the walk met in it.
pub proof fn law_contents_removed_first(w: WalkModel, platform: Platform, i: int)
    requires
        w.wf(platform),
        0 < i < w.out.len(),
    ensures
        exists|j: int|
            #![trigger w.out[j]]
            0 <= j < i && child_of(w.out[i].path, w.out[j].path, platform) && removal_order(
                w.out,
            )[w.out.len() - 1 - i].0 == w.out[i].path && removal_order(w.out)[w.out.len() - 1
                - j].0 == w.out[j].path,
{
    assert(rooted(w.out, i, platform));
    let dir = choose|dir: Seq<char>| #[trigger]
        opened(w.out, i, dir) && child_of(w.out[i].path, dir, platform);
    let j = choose|j: int|
        0 <= j < i && (#[trigger] w.out[j]).path == dir && true_folder(w.out[j].attrs);
    assert(w.out[j].path == dir);
}

/// Whether a link is followed.
pub open spec fn followed(link: bool, follow_root: bool) -> bool {
    follow_root && link
}

} // verus!
