//! The file manager's requests over SFTP: remote paths, listings, recursive walks
//! and what to copy. Everything runs in the background: the file manager sends
//! requests and gets events back, and never waits on the network.

use crate::model::{lemma_push, models, Duplicate};
use crate::shortcut::Platform;
use crate::text::{
    begins, clone_opt, drop_back, find_last, last_place, opt_view, same_str, to_chars, trim_back,
    views, Class,
};
use vstd::prelude::*;

verus! {

/// One file or directory in a listing.
#[derive(Debug)]
pub struct Entry {
    pub name: String,
    pub is_dir: bool,
    pub is_link: bool,
    pub size: u64,
    /// Seconds since 1970.
    pub mtime: Option<i64>,
    /// Unix permission bits (the lower 12), when known.
    pub mode: Option<u32>,
    pub owner: Option<String>,
}

#[verifier::ext_equal]
pub struct EntryModel {
    pub name: Seq<char>,
    pub is_dir: bool,
    pub is_link: bool,
    pub size: u64,
    pub mtime: Option<i64>,
    pub mode: Option<u32>,
    pub owner: Option<Seq<char>>,
}

impl View for Entry {
    type V = EntryModel;

    open spec fn view(&self) -> EntryModel {
        EntryModel {
            name: self.name@,
            is_dir: self.is_dir,
            is_link: self.is_link,
            size: self.size,
            mtime: self.mtime,
            mode: self.mode,
            owner: opt_view(self.owner),
        }
    }
}

impl Duplicate for Entry {
    fn duplicate(&self) -> (r: Self) {
        Entry {
            name: self.name.clone(),
            is_dir: self.is_dir,
            is_link: self.is_link,
            size: self.size,
            mtime: self.mtime,
            mode: self.mode,
            owner: clone_opt(&self.owner),
        }
    }
}

/// What the file manager asks for. Remote paths are absolute, with "/" separators.
#[derive(Debug)]
pub enum Request {
    List(String),
    Mkdir(String),
    Rename(String, String),
    /// Files and directories (recursively).
    Remove(Vec<String>),
    Chmod { paths: Vec<String>, mode: u32, recursive: bool },
    Download { id: u64, remote: Vec<String>, local_dir: String, overwrite: bool },
    Upload { id: u64, local: Vec<String>, remote_dir: String, overwrite: bool },
}

#[verifier::ext_equal]
pub enum RequestModel {
    List(Seq<char>),
    Mkdir(Seq<char>),
    Rename(Seq<char>, Seq<char>),
    Remove(Seq<Seq<char>>),
    Chmod { paths: Seq<Seq<char>>, mode: u32, recursive: bool },
    Download { id: u64, remote: Seq<Seq<char>>, local_dir: Seq<char>, overwrite: bool },
    Upload { id: u64, local: Seq<Seq<char>>, remote_dir: Seq<char>, overwrite: bool },
}

impl View for Request {
    type V = RequestModel;

    open spec fn view(&self) -> RequestModel {
        match *self {
            Request::List(p) => RequestModel::List(p@),
            Request::Mkdir(p) => RequestModel::Mkdir(p@),
            Request::Rename(a, b) => RequestModel::Rename(a@, b@),
            Request::Remove(p) => RequestModel::Remove(views(p@)),
            Request::Chmod { paths, mode, recursive } => RequestModel::Chmod {
                paths: views(paths@),
                mode,
                recursive,
            },
            Request::Download { id, remote, local_dir, overwrite } => RequestModel::Download {
                id,
                remote: views(remote@),
                local_dir: local_dir@,
                overwrite,
            },
            Request::Upload { id, local, remote_dir, overwrite } => RequestModel::Upload {
                id,
                local: views(local@),
                remote_dir: remote_dir@,
                overwrite,
            },
        }
    }
}

/// What comes back from the session.
#[derive(Debug)]
pub enum Event {
    /// The session is ready; `home` is the remote home directory.
    Connected { home: String },
    Listing { path: String, entries: Vec<Entry> },
    /// A folder couldn't be listed (the panel goes back to where it was).
    ListFailed { path: String, error: String },
    /// A change (mkdir, rename, remove, chmod) is done: the listing may be out of date.
    Changed,
    Error(String),
    Progress { id: u64, done: u64, total: u64, current: String },
    /// Done: how many files were skipped because they already existed, or why it failed.
    Finished { id: u64, result: Result<u64, String> },
    /// The connection is over (with ssh's last words, if any).
    Closed(String),
}

#[verifier::ext_equal]
pub enum EventModel {
    Connected { home: Seq<char> },
    Listing { path: Seq<char>, entries: Seq<EntryModel> },
    ListFailed { path: Seq<char>, error: Seq<char> },
    Changed,
    Error(Seq<char>),
    Progress { id: u64, done: u64, total: u64, current: Seq<char> },
    Finished { id: u64, result: Result<u64, Seq<char>> },
    Closed(Seq<char>),
}

impl View for Event {
    type V = EventModel;

    open spec fn view(&self) -> EventModel {
        match *self {
            Event::Connected { home } => EventModel::Connected { home: home@ },
            Event::Listing { path, entries } => EventModel::Listing {
                path: path@,
                entries: models(entries@),
            },
            Event::ListFailed { path, error } => EventModel::ListFailed {
                path: path@,
                error: error@,
            },
            Event::Changed => EventModel::Changed,
            Event::Error(e) => EventModel::Error(e@),
            Event::Progress { id, done, total, current } => EventModel::Progress {
                id,
                done,
                total,
                current: current@,
            },
            Event::Finished { id, result } => EventModel::Finished {
                id,
                result: match result {
                    Ok(n) => Ok(n),
                    Err(e) => Err(e@),
                },
            },
            Event::Closed(e) => EventModel::Closed(e@),
        }
    }
}

/// A remote directory and a name in it.
pub open spec fn joined_path(dir: Seq<char>, name: Seq<char>) -> Seq<char> {
    if dir.len() > 0 && dir.last() == '/' {
        dir + name
    } else {
        dir + seq!['/'] + name
    }
}

/// Joins a remote directory and a name.
pub fn join(dir: &str, name: &str) -> (r: String)
    ensures
        r@ == joined_path(dir@, name@),
{
    let d = to_chars(dir);
    let mut r = String::new();
    r.push_str(dir);
    if d.len() == 0 || d[d.len() - 1] != '/' {
        r.push('/');
    }
    r.push_str(name);
    assert(r@ =~= joined_path(dir@, name@));
    r
}

/// The parent of a remote path: what comes before its last part ("/" for the
/// parts below the root, and for the root itself).
pub open spec fn parent_path(path: Seq<char>) -> Seq<char> {
    let t = drop_back(path, Class::Is('/'));
    let n = last_place(t, '/');
    if n <= 0 {
        seq!['/']
    } else {
        t.take(n)
    }
}

/// The parent of a remote path ("/" stays "/").
pub fn parent(path: &str) -> (r: String)
    ensures
        r@ == parent_path(path@),
{
    let t = trim_back(&to_chars(path), Class::Is('/'));
    let n = find_last(&t, '/');
    if n == t.len() || n == 0 {
        let mut r = String::new();
        r.push('/');
        assert(r@ =~= seq!['/']);
        return r;
    }
    let head = crate::text::slice(&t, 0, n);
    assert(head@ =~= t@.take(n as int));
    crate::text::from_chars(&head)
}

/// The characters that no file name may hold.
pub open spec fn forbidden(c: char, platform: Platform) -> bool {
    ||| c == '/' || c == '\0'
    ||| platform is Windows && (c == '\\' || c == ':' || c == '*' || c == '?' || c == '"' || c
        == '<' || c == '>' || c == '|')
}

/// Whether a text is a plain file name.
pub open spec fn plain_name(name: Seq<char>, platform: Platform) -> bool {
    &&& name.len() > 0
    &&& name != "."@
    &&& name != ".."@
    &&& forall|i: int| 0 <= i < name.len() ==> !forbidden(#[trigger] name[i], platform)
}

/// Whether a name sent by the server is a plain file name. A server could send "../../.zshenv"
/// or "a/b" to make a download write outside the chosen folder (OpenSSH's sftp refuses them too).
pub fn valid_name(name: &str, platform: Platform) -> (r: bool)
    ensures
        r == plain_name(name@, platform),
{
    let v = to_chars(name);
    if v.len() == 0 || same_str(name, ".") || same_str(name, "..") {
        return false;
    }
    let windows = match platform {
        Platform::Windows => true,
        _ => false,
    };
    let mut i: usize = 0;
    while i < v.len()
        invariant
            i <= v@.len(),
            v@ == name@,
            windows == platform is Windows,
            forall|j: int| 0 <= j < i ==> !forbidden(#[trigger] v@[j], platform),
        decreases v.len() - i,
    {
        let c = v[i];
        if c == '/' || c == '\0' || (windows && (c == '\\' || c == ':' || c == '*' || c == '?' || c
            == '"' || c == '<' || c == '>' || c == '|')) {
            assert(forbidden(v@[i as int], platform));
            return false;
        }
        i += 1;
    }
    true
}

/// A name below a directory leads back to the directory.
pub proof fn law_parent_of_join(dir: Seq<char>, name: Seq<char>, platform: Platform)
    requires
        plain_name(name, platform),
        dir == seq!['/'] || (dir.len() > 0 && dir.last() != '/'),
    ensures
        parent_path(joined_path(dir, name)) == dir,
{
    let path = joined_path(dir, name);
    let n = path.len() - name.len();
    assert(path.skip(n) =~= name);
    assert forall|j: int| n <= j < path.len() implies #[trigger] path[j] != '/' by {
        assert(path[j] == name[j - n]);
        assert(!forbidden(name[j - n], platform));
    }
    assert(path[path.len() - 1] != '/');
    assert(drop_back(path, Class::Is('/')) == path);
    assert(path[n - 1] == '/');
    crate::text::lemma_last_place_is(path, '/', n - 1);
    if dir == seq!['/'] {
        assert(n == 1);
    } else {
        assert(path.take(n - 1) =~= dir);
    }
}

/// A plain name holds no separator, so a path made of a directory and a name
/// has just one part more.
pub proof fn law_join_is_below(dir: Seq<char>, name: Seq<char>, platform: Platform)
    requires
        plain_name(name, platform),
    ensures
        begins(joined_path(dir, name), dir),
        joined_path(dir, name).len() > dir.len(),
        joined_path(dir, name) != dir,
{
    assert(joined_path(dir, name).take(dir.len() as int) =~= dir);
}

/// What the server says of a file.
#[derive(Debug)]
pub struct Attrs {
    pub dir: bool,
    pub link: bool,
    pub size: Option<u64>,
    pub mtime: Option<u32>,
    pub permissions: Option<u32>,
    pub user: Option<String>,
    pub uid: Option<u32>,
}

#[verifier::ext_equal]
pub struct AttrsModel {
    pub dir: bool,
    pub link: bool,
    pub size: Option<u64>,
    pub mtime: Option<u32>,
    pub permissions: Option<u32>,
    pub user: Option<Seq<char>>,
    pub uid: Option<u32>,
}

impl View for Attrs {
    type V = AttrsModel;

    open spec fn view(&self) -> AttrsModel {
        AttrsModel {
            dir: self.dir,
            link: self.link,
            size: self.size,
            mtime: self.mtime,
            permissions: self.permissions,
            user: opt_view(self.user),
            uid: self.uid,
        }
    }
}

impl Duplicate for Attrs {
    fn duplicate(&self) -> (r: Self) {
        Attrs {
            dir: self.dir,
            link: self.link,
            size: self.size,
            mtime: self.mtime,
            permissions: self.permissions,
            user: clone_opt(&self.user),
            uid: self.uid,
        }
    }
}

/// The lower twelve bits of a mode.
pub open spec fn permission_bits(mode: u32) -> u32 {
    mode & 0xfff
}

/// The line that a file makes in a listing.
pub open spec fn entry_of(name: Seq<char>, a: AttrsModel) -> EntryModel {
    EntryModel {
        name,
        is_dir: a.dir,
        is_link: a.link,
        size: match a.size {
            Some(n) => n,
            None => 0,
        },
        mtime: match a.mtime {
            Some(t) => Some(t as i64),
            None => None,
        },
        mode: match a.permissions {
            Some(p) => Some(permission_bits(p)),
            None => None,
        },
        owner: match (a.user, a.uid) {
            (Some(u), _) => Some(u),
            (None, Some(id)) => Some(crate::text::decimal(id as nat)),
            (None, None) => None,
        },
    }
}

/// Makes the line of a file in a listing.
pub fn entry(name: &str, attrs: &Attrs) -> (r: Entry)
    ensures
        r@ == entry_of(name@, attrs@),
{
    Entry {
        name: name.to_owned(),
        is_dir: attrs.dir,
        is_link: attrs.link,
        size: match attrs.size {
            Some(n) => n,
            None => 0,
        },
        mtime: match attrs.mtime {
            Some(t) => Some(t as i64),
            None => None,
        },
        mode: match attrs.permissions {
            Some(p) => Some(p & 0xfff),
            None => None,
        },
        owner: match (&attrs.user, attrs.uid) {
            (Some(u), _) => Some(u.clone()),
            (None, Some(id)) => Some(crate::text::to_decimal(id as u64)),
            (None, None) => None,
        },
    }
}

/// What is known of a local file: the link itself, and the folder or file behind it.
pub struct LocalFile {
    pub name: String,
    pub dir: bool,
    pub link: bool,
    /// Whether what a link points to is a folder, where it can be read.
    pub target_dir: Option<bool>,
    pub size: u64,
    /// Seconds since 1970.
    pub modified: Option<u64>,
    /// The system's mode, where there is one.
    pub mode: Option<u32>,
}

/// The line of a local file: a link to a folder opens like a folder, and its size,
/// time and permissions are those of the link.
pub open spec fn local_entry_of(f: LocalFile) -> EntryModel {
    EntryModel {
        name: f.name@,
        is_dir: if f.link && f.target_dir is Some {
            f.target_dir->0
        } else {
            f.dir
        },
        is_link: f.link,
        size: f.size,
        mtime: match f.modified {
            Some(t) => Some(t as i64),
            None => None,
        },
        mode: match f.mode {
            Some(m) => Some(permission_bits(m)),
            None => None,
        },
        owner: None,
    }
}

/// Makes the line of a local file.
pub fn local_entry(f: LocalFile) -> (r: Entry)
    ensures
        r@ == local_entry_of(f),
{
    Entry {
        is_dir: match f.target_dir {
            Some(target) => if f.link {
                target
            } else {
                f.dir
            },
            None => f.dir,
        },
        name: f.name,
        is_link: f.link,
        size: f.size,
        mtime: match f.modified {
            Some(t) => Some(t as i64),
            None => None,
        },
        mode: match f.mode {
            Some(m) => Some(m & 0xfff),
            None => None,
        },
        owner: None,
    }
}

/// A file met in a listing, with what a link leads to where that is known.
pub struct Listed {
    pub name: String,
    pub attrs: Attrs,
    /// Whether the target of a link is a directory, where it could be read.
    pub target_dir: Option<bool>,
}

#[verifier::ext_equal]
pub struct ListedModel {
    pub name: Seq<char>,
    pub attrs: AttrsModel,
    pub target_dir: Option<bool>,
}

impl View for Listed {
    type V = ListedModel;

    open spec fn view(&self) -> ListedModel {
        ListedModel { name: self.name@, attrs: self.attrs@, target_dir: self.target_dir }
    }
}

/// The line of a file, a link to a directory opening like a directory.
pub open spec fn listed_entry(item: ListedModel) -> EntryModel {
    let e = entry_of(item.name, item.attrs);
    match item.target_dir {
        Some(dir) if e.is_link => EntryModel { is_dir: dir, ..e },
        _ => e,
    }
}

/// The lines of a listing. Suspect names are not shown: every action on them
/// would act on another path.
pub open spec fn listing(items: Seq<ListedModel>, platform: Platform) -> Seq<EntryModel>
    decreases items.len(),
{
    if items.len() == 0 {
        Seq::empty()
    } else {
        let rest = listing(items.drop_last(), platform);
        if plain_name(items.last().name, platform) {
            rest.push(listed_entry(items.last()))
        } else {
            rest
        }
    }
}

/// Makes a listing of the files that the server sent.
pub fn list(items: &Vec<Listed>, platform: Platform) -> (r: Vec<Entry>)
    ensures
        models(r@) == listing(models(items@), platform),
{
    let mut r: Vec<Entry> = Vec::new();
    let mut i: usize = 0;
    let ghost all = models(items@);
    assert(all.take(0) =~= Seq::empty());
    assert(models(r@) =~= Seq::empty());
    while i < items.len()
        invariant
            i <= items@.len(),
            all == models(items@),
            models(r@) == listing(all.take(i as int), platform),
        decreases items.len() - i,
    {
        assert(all.take(i + 1).drop_last() =~= all.take(i as int));
        let item = &items[i];
        if valid_name(item.name.as_str(), platform) {
            let mut e = entry(item.name.as_str(), &item.attrs);
            if e.is_link {
                if let Some(dir) = item.target_dir {
                    e.is_dir = dir;
                }
            }
            assert(e@ =~= listed_entry(all[i as int]));
            let ghost before = r@;
            r.push(e);
            proof {
                lemma_push(before, e);
            }
        }
        i += 1;
    }
    assert(all.take(i as int) =~= all);
    r
}

/// Every line of a listing has a plain name.
pub proof fn law_listing_names(items: Seq<ListedModel>, platform: Platform, i: int)
    requires
        0 <= i < listing(items, platform).len(),
    ensures
        plain_name(listing(items, platform)[i].name, platform),
    decreases items.len(),
{
    if items.len() > 0 {
        if i < listing(items.drop_last(), platform).len() {
            law_listing_names(items.drop_last(), platform, i);
        }
    }
}

} // verus!
