//! Downloads and uploads: what goes where, what is skipped, and how far it is.

use crate::model::{lemma_push, models, Duplicate};
use crate::paths::{below, join_path, separator};
use crate::sftp::{
    join, joined_path, parent, parent_path, Entry, EntryModel, Event, EventModel, Request,
    RequestModel,
};
use crate::shortcut::Platform;
use crate::text::{
    begins, drop_front, from_chars, joined, slice, starts_with, to_chars, trim_front, trimmed,
    views, Class,
};
use crate::walk::{Found, FoundModel};
use std::collections::HashMap;
use vstd::prelude::*;

verus! {

broadcast use vstd::std_specs::hash::group_hash_axioms;

/// The part of a path below the folder that holds the root of a transfer.
pub open spec fn relative_path(path: Seq<char>, root: Seq<char>) -> Seq<char> {
    let base = parent_path(root);
    let rest = if begins(path, base) {
        path.skip(base.len() as int)
    } else {
        path
    };
    drop_front(rest, Class::Is('/'))
}

/// Finds where a path goes, relative to the folder that it is copied into.
pub fn relative(path: &str, root: &str) -> (r: String)
    ensures
        r@ == relative_path(path@, root@),
{
    let p = to_chars(path);
    let base = parent(root);
    let rest = if starts_with(&p, base.as_str()) {
        let n = to_chars(base.as_str()).len();
        let rest = slice(&p, n, p.len());
        assert(rest@ =~= p@.skip(base@.len() as int));
        rest
    } else {
        p
    };
    from_chars(&trim_front(&rest, Class::Is('/')))
}

/// The parts of a path, cut at every separator.
pub open spec fn parts(s: Seq<char>, platform: Platform) -> Seq<Seq<char>>
    decreases s.len(),
{
    if s.len() == 0 {
        seq![s]
    } else {
        let before = parts(s.drop_last(), platform);
        if separator(s.last(), platform) {
            before.push(Seq::empty())
        } else {
            before.drop_last().push(before.last().push(s.last()))
        }
    }
}

/// Whether a path starts with a drive, such as "C:".
pub open spec fn has_drive(s: Seq<char>, platform: Platform) -> bool {
    &&& platform is Windows
    &&& s.len() >= 2
    &&& ('a' <= s[0] <= 'z' || 'A' <= s[0] <= 'Z')
    &&& s[1] == ':'
}

/// Whether a relative path only goes down: it starts at no root or drive, does
/// not start with "." and goes nowhere through "..".
pub open spec fn plain_path(s: Seq<char>, platform: Platform) -> bool {
    &&& s.len() > 0 ==> !separator(s[0], platform)
    &&& !has_drive(s, platform)
    &&& parts(s, platform)[0] != "."@
    &&& forall|i: int| 0 <= i < parts(s, platform).len() ==> #[trigger] parts(s, platform)[i]
        != ".."@
}

/// Whether a list of characters is a text.
fn is_text(v: &Vec<char>, s: &str) -> (r: bool)
    ensures
        r == (v@ == s@),
{
    crate::text::same(v, &to_chars(s))
}

fn parts_of(v: &Vec<char>, platform: Platform) -> (r: Vec<Vec<char>>)
    ensures
        crate::text::char_views(r@) == parts(v@, platform),
        r@.len() > 0,
{
    let windows = match platform {
        Platform::Windows => true,
        _ => false,
    };
    let mut r: Vec<Vec<char>> = Vec::new();
    let mut last: Vec<char> = Vec::new();
    let mut i: usize = 0;
    proof {
        assert(v@.take(0) =~= Seq::empty());
        assert(crate::text::char_views(r@).push(last@) =~= parts(v@.take(0), platform));
    }
    while i < v.len()
        invariant
            i <= v@.len(),
            windows == platform is Windows,
            crate::text::char_views(r@).push(last@) == parts(v@.take(i as int), platform),
        decreases v.len() - i,
    {
        let c = v[i];
        let ghost before = crate::text::char_views(r@);
        let ghost l = last@;
        proof {
            assert(v@.take(i + 1).drop_last() =~= v@.take(i as int));
            assert(before.push(l).drop_last() =~= before);
        }
        if c == '/' || (windows && c == '\\') {
            r.push(last);
            last = Vec::new();
            assert(crate::text::char_views(r@) =~= before.push(l));
            assert(last@ =~= Seq::empty());
        } else {
            last.push(c);
        }
        i += 1;
    }
    let ghost before = crate::text::char_views(r@);
    r.push(last);
    assert(crate::text::char_views(r@) =~= before.push(last@));
    assert(v@.take(i as int) =~= v@);
    r
}

/// Tests whether a relative path only goes down.
pub fn only_down(s: &str, platform: Platform) -> (r: bool)
    ensures
        r == plain_path(s@, platform),
{
    let v = to_chars(s);
    let windows = match platform {
        Platform::Windows => true,
        _ => false,
    };
    if v.len() > 0 && (v[0] == '/' || (windows && v[0] == '\\')) {
        return false;
    }
    if windows && v.len() >= 2 && (('a' <= v[0] && v[0] <= 'z') || ('A' <= v[0] && v[0] <= 'Z'))
        && v[1] == ':' {
        return false;
    }
    let all = parts_of(&v, platform);
    let ghost spec_parts = parts(s@, platform);
    assert(crate::text::char_views(all@)[0] == all@[0]@);
    if is_text(&all[0], ".") {
        return false;
    }
    let mut i: usize = 0;
    while i < all.len()
        invariant
            i <= all@.len(),
            crate::text::char_views(all@) == spec_parts,
            spec_parts == parts(s@, platform),
            forall|j: int| 0 <= j < i ==> #[trigger] spec_parts[j] != ".."@,
        decreases all.len() - i,
    {
        assert(spec_parts[i as int] == all@[i as int]@);
        if is_text(&all[i], "..") {
            return false;
        }
        i += 1;
    }
    true
}

/// A file or folder to download, and where it goes.
#[derive(Debug)]
pub struct Planned {
    pub remote: String,
    pub local: String,
    pub attrs: crate::sftp::Attrs,
}

#[verifier::ext_equal]
pub struct PlannedModel {
    pub remote: Seq<char>,
    pub local: Seq<char>,
    pub attrs: crate::sftp::AttrsModel,
}

impl View for Planned {
    type V = PlannedModel;

    open spec fn view(&self) -> PlannedModel {
        PlannedModel { remote: self.remote@, local: self.local@, attrs: self.attrs@ }
    }
}

/// Where a path of a walk is downloaded to.
pub open spec fn planned(
    f: FoundModel,
    root: Seq<char>,
    local_dir: Seq<char>,
    platform: Platform,
) -> PlannedModel {
    PlannedModel {
        remote: f.path,
        local: below(local_dir, relative_path(f.path, root), platform),
        attrs: f.attrs,
    }
}

/// What a walk from a root adds to a download, or the first path that would be
/// written outside the chosen folder.
pub open spec fn download_plan(
    out: Seq<FoundModel>,
    root: Seq<char>,
    local_dir: Seq<char>,
    platform: Platform,
) -> Result<Seq<PlannedModel>, Seq<char>>
    decreases out.len(),
{
    if out.len() == 0 {
        Ok(Seq::empty())
    } else {
        match download_plan(out.drop_last(), root, local_dir, platform) {
            Ok(plan) => if plain_path(relative_path(out.last().path, root), platform) {
                Ok(plan.push(planned(out.last(), root, local_dir, platform)))
            } else {
                Err(relative_path(out.last().path, root))
            },
            Err(e) => Err(e),
        }
    }
}

proof fn lemma_bad_plan(
    out: Seq<FoundModel>,
    root: Seq<char>,
    local_dir: Seq<char>,
    platform: Platform,
    n: int,
)
    requires
        0 <= n <= out.len(),
        download_plan(out.take(n), root, local_dir, platform) is Err,
    ensures
        download_plan(out, root, local_dir, platform) == download_plan(
            out.take(n),
            root,
            local_dir,
            platform,
        ),
    decreases out.len() - n,
{
    if n < out.len() {
        assert(out.take(n + 1).drop_last() =~= out.take(n));
        lemma_bad_plan(out, root, local_dir, platform, n + 1);
    } else {
        assert(out.take(n) =~= out);
    }
}

/// Plans the download of what a walk met. The error is the relative path that
/// would leave the chosen folder.
pub fn plan_download(
    found: &Vec<Found>,
    root: &str,
    local_dir: &str,
    platform: Platform,
) -> (r: Result<Vec<Planned>, String>)
    ensures
        match r {
            Ok(plan) => download_plan(models(found@), root@, local_dir@, platform) == Ok::<
                Seq<PlannedModel>,
                Seq<char>,
            >(models(plan@)),
            Err(e) => download_plan(models(found@), root@, local_dir@, platform) == Err::<
                Seq<PlannedModel>,
                Seq<char>,
            >(e@),
        },
{
    let mut plan: Vec<Planned> = Vec::new();
    let mut i: usize = 0;
    let ghost all = models(found@);
    assert(all.take(0) =~= Seq::empty());
    assert(models(plan@) =~= Seq::empty());
    while i < found.len()
        invariant
            i <= found@.len(),
            all == models(found@),
            download_plan(all.take(i as int), root@, local_dir@, platform) == Ok::<
                Seq<PlannedModel>,
                Seq<char>,
            >(models(plan@)),
        decreases found.len() - i,
    {
        assert(all.take(i + 1).drop_last() =~= all.take(i as int));
        let rel = relative(found[i].path.as_str(), root);
        if !only_down(rel.as_str(), platform) {
            proof {
                lemma_bad_plan(all, root@, local_dir@, platform, i + 1);
            }
            return Err(rel);
        }
        let local = join_path(local_dir, rel.as_str(), platform);
        let item = Planned {
            remote: found[i].path.clone(),
            local,
            attrs: found[i].attrs.duplicate(),
        };
        let ghost before = plan@;
        plan.push(item);
        proof {
            lemma_push(before, item);
            assert(item@ =~= planned(all[i as int], root@, local_dir@, platform));
        }
        i += 1;
    }
    assert(all.take(i as int) =~= all);
    Ok(plan)
}

/// Everything that is planned goes below the chosen folder, by a path that only
/// goes down.
pub proof fn law_download_stays_inside(
    out: Seq<FoundModel>,
    root: Seq<char>,
    local_dir: Seq<char>,
    platform: Platform,
    i: int,
)
    requires
        download_plan(out, root, local_dir, platform) is Ok,
        0 <= i < out.len(),
    ensures
        download_plan(out, root, local_dir, platform)->Ok_0.len() == out.len(),
        exists|rel: Seq<char>|
            plain_path(rel, platform) && download_plan(out, root, local_dir, platform)->Ok_0[i].local
                == #[trigger] below(local_dir, rel, platform),
    decreases out.len(),
{
    let rest = out.drop_last();
    if i < rest.len() {
        law_download_stays_inside(rest, root, local_dir, platform, i);
    } else {
        lemma_plan_len(rest, root, local_dir, platform);
        let rel = relative_path(out.last().path, root);
        assert(download_plan(out, root, local_dir, platform)->Ok_0[i].local == below(
            local_dir,
            rel,
            platform,
        ));
    }
}

proof fn lemma_plan_len(
    out: Seq<FoundModel>,
    root: Seq<char>,
    local_dir: Seq<char>,
    platform: Platform,
)
    requires
        download_plan(out, root, local_dir, platform) is Ok,
    ensures
        download_plan(out, root, local_dir, platform)->Ok_0.len() == out.len(),
    decreases out.len(),
{
    if out.len() > 0 {
        lemma_plan_len(out.drop_last(), root, local_dir, platform);
    }
}

/// The size of a file as announced.
pub open spec fn announced(size: Option<u64>) -> nat {
    match size {
        Some(n) => n as nat,
        None => 0,
    }
}

/// What a download weighs: the announced sizes of all that is no directory.
pub open spec fn download_size(plan: Seq<PlannedModel>) -> nat
    decreases plan.len(),
{
    if plan.len() == 0 {
        0
    } else {
        download_size(plan.drop_last()) + (if plan.last().attrs.dir {
            0
        } else {
            announced(plan.last().attrs.size)
        })
    }
}

proof fn lemma_size_grows(plan: Seq<PlannedModel>, n: int)
    requires
        0 <= n <= plan.len(),
    ensures
        download_size(plan.take(n)) <= download_size(plan),
    decreases plan.len() - n,
{
    if n < plan.len() {
        assert(plan.take(n + 1).drop_last() =~= plan.take(n));
        lemma_size_grows(plan, n + 1);
    } else {
        assert(plan.take(n) =~= plan);
    }
}

/// Adds up what a download weighs, where the sum fits.
pub fn total_size(plan: &Vec<Planned>) -> (r: Option<u64>)
    ensures
        match r {
            Some(n) => n == download_size(models(plan@)),
            None => download_size(models(plan@)) > u64::MAX,
        },
{
    let mut total: u64 = 0;
    let mut i: usize = 0;
    let ghost all = models(plan@);
    assert(all.take(0) =~= Seq::empty());
    while i < plan.len()
        invariant
            i <= plan@.len(),
            all == models(plan@),
            total == download_size(all.take(i as int)),
        decreases plan.len() - i,
    {
        assert(all.take(i + 1).drop_last() =~= all.take(i as int));
        if !plan[i].attrs.dir {
            let n: u64 = match plan[i].attrs.size {
                Some(n) => n,
                None => 0,
            };
            proof {
                lemma_size_grows(all, i + 1);
            }
            if n > u64::MAX - total {
                return None;
            }
            total += n;
        }
        i += 1;
    }
    assert(all.take(i as int) =~= all);
    Some(total)
}

/// What stands where a file is to be downloaded.
#[derive(Clone, Copy, PartialEq, Eq, Structural, Debug)]
pub enum Existing {
    Nothing,
    Link,
    Other,
}

/// What to do about one item of a download.
#[derive(Clone, Copy, PartialEq, Eq, Structural, Debug)]
pub enum Download {
    MakeFolder,
    /// A link met inside a folder: left out.
    LeaveLink,
    /// A link stands where the file would go: it is never written through.
    RefuseLink,
    /// The file exists and is kept.
    Skip,
    Copy,
}

/// What to do about an item, given what stands where it would go.
pub open spec fn download_step(
    dir: bool,
    link: bool,
    existing: Existing,
    overwrite: bool,
) -> Download {
    if dir {
        Download::MakeFolder
    } else if link {
        Download::LeaveLink
    } else if existing is Link {
        Download::RefuseLink
    } else if !overwrite && !(existing is Nothing) {
        Download::Skip
    } else {
        Download::Copy
    }
}

/// Decides what to do about one item of a download.
pub fn download(attrs: &crate::sftp::Attrs, existing: Existing, overwrite: bool) -> (r: Download)
    ensures
        r == download_step(attrs.dir, attrs.link, existing, overwrite),
{
    if attrs.dir {
        return Download::MakeFolder;
    }
    if attrs.link {
        return Download::LeaveLink;
    }
    match existing {
        Existing::Link => Download::RefuseLink,
        Existing::Other => {
            if overwrite {
                Download::Copy
            } else {
                Download::Skip
            }
        },
        Existing::Nothing => Download::Copy,
    }
}

/// A file that exists is only replaced where that was asked for, and a link never.
pub proof fn law_download_never_overwrites(dir: bool, link: bool, existing: Existing)
    ensures
        existing != Existing::Nothing ==> download_step(dir, link, existing, false)
            != Download::Copy,
        existing == Existing::Link ==> download_step(dir, link, existing, true) != Download::Copy,
{
}

/// The name under which a file is written until it is whole.
pub open spec fn part_text(name: Seq<char>) -> Seq<char> {
    seq!['.'] + name + ".ronnie-part"@
}

/// The name under which a file is written until it is whole: an error or a
/// cancel never leaves a truncated file.
pub fn part_name(name: &str) -> (r: String)
    ensures
        r@ == part_text(name@),
{
    let mut r = String::new();
    r.push('.');
    r.push_str(name);
    r.push_str(".ronnie-part");
    assert(r@ =~= part_text(name@));
    r
}

/// How much more than announced a server may send.
pub const SLACK: u64 = 0x10_0000;

/// The most that a file may weigh, given its announced size.
pub open spec fn allowance(size: Option<u64>) -> nat {
    match size {
        Some(n) => if n + SLACK > u64::MAX {
            u64::MAX as nat
        } else {
            (n + SLACK) as nat
        },
        None => u64::MAX as nat,
    }
}

/// Counts what was received of a file; `None` where the server sends more than
/// it announced, which could fill the disk.
pub fn receive(received: u64, n: usize, size: Option<u64>) -> (r: Option<u64>)
    requires
        received + n <= u64::MAX,
    ensures
        r == if received + n <= allowance(size) {
            Some((received + n) as u64)
        } else {
            None
        },
        match r {
            Some(v) => received_after(received as nat, n as nat, size) == Some(v as nat),
            None => received_after(received as nat, n as nat, size) is None,
        },
{
    let now: u64 = received + n as u64;
    let most: u64 = match size {
        Some(s) => if s > u64::MAX - SLACK {
            u64::MAX
        } else {
            s + SLACK
        },
        None => u64::MAX,
    };
    if now <= most {
        Some(now)
    } else {
        None
    }
}

/// The permissions that a copy gets: the lower nine bits.
pub fn copied_mode(mode: u32) -> (r: u32)
    ensures
        r == mode & 0x1ff,
        r == copied_bits(mode),
{
    mode & 0x1ff
}

/// The permissions that are set on request: the lower twelve bits.
pub fn asked_mode(mode: u32) -> (r: u32)
    ensures
        r == crate::sftp::permission_bits(mode),
{
    mode & 0xfff
}

/// Throttled progress reports.
#[derive(Debug)]
pub struct Progress {
    pub id: u64,
    pub total: u64,
    pub done: u64,
}

/// How long a report waits for the one before, in milliseconds.
pub const REPORT_EVERY: u64 = 150;

impl Progress {
    /// Counts `n` more bytes; gives a report if the last one is old enough.
    pub fn add(&mut self, n: u64, current: &str, elapsed: u64) -> (r: Option<Event>)
        requires
            old(self).done + n <= u64::MAX,
        ensures
            final(self).done == old(self).done + n,
            final(self).id == old(self).id,
            final(self).total == old(self).total,
            match r {
                Some(e) => elapsed > REPORT_EVERY && e@ == (EventModel::Progress {
                    id: old(self).id,
                    done: (old(self).done + n) as u64,
                    total: old(self).total,
                    current: current@,
                }),
                None => elapsed <= REPORT_EVERY,
            },
            *final(self) == old(self).grown(n as nat),
            r is Some == time_to_tell(elapsed),
            r matches Some(e) ==> e@ == old(self).grown(n as nat).told(current@),
    {
        self.done += n;
        if elapsed > REPORT_EVERY {
            Some(
                Event::Progress {
                    id: self.id,
                    done: self.done,
                    total: self.total,
                    current: current.to_owned(),
                },
            )
        } else {
            None
        }
    }

    /// The last report: everything is done.
    pub fn finish(&self) -> (r: Event)
        ensures
            r@ == (EventModel::Progress {
                id: self.id,
                done: self.total,
                total: self.total,
                current: Seq::empty(),
            }),
            r@ == (Progress { done: self.total, ..*self }).told(Seq::empty()),
    {
        Event::Progress {
            id: self.id,
            done: self.total,
            total: self.total,
            current: String::new(),
        }
    }
}

/// What a local path is.
#[derive(Clone, Copy, PartialEq, Eq, Structural, Debug)]
pub enum Local {
    Folder,
    File { size: u64 },
    /// A link met inside a folder, a socket...: left out.
    Other,
}

/// A file or folder to upload, and where it goes.
#[derive(Debug)]
pub struct Sent {
    pub local: String,
    pub remote: String,
    pub dir: bool,
    pub size: u64,
}

#[verifier::ext_equal]
pub struct SentModel {
    pub local: Seq<char>,
    pub remote: Seq<char>,
    pub dir: bool,
    pub size: u64,
}

impl View for Sent {
    type V = SentModel;

    open spec fn view(&self) -> SentModel {
        SentModel { local: self.local@, remote: self.remote@, dir: self.dir, size: self.size }
    }
}

/// Where a local path goes: the parts of it below the folder of its root, in the
/// remote folder.
pub open spec fn upload_target(remote_dir: Seq<char>, parts: Seq<Seq<char>>) -> Seq<char> {
    joined_path(remote_dir, joined(parts, "/"@))
}

/// What a local path adds to an upload.
pub open spec fn sent(
    path: Seq<char>,
    kind: Local,
    remote_dir: Seq<char>,
    parts: Seq<Seq<char>>,
) -> Option<SentModel> {
    match kind {
        Local::Folder => Some(
            SentModel {
                local: path,
                remote: upload_target(remote_dir, parts),
                dir: true,
                size: 0,
            },
        ),
        Local::File { size } => Some(
            SentModel { local: path, remote: upload_target(remote_dir, parts), dir: false, size },
        ),
        Local::Other => None,
    }
}

/// Plans the upload of a local path; `parts` are those below the folder of the root.
pub fn plan_upload(path: &str, kind: Local, remote_dir: &str, parts: &Vec<String>) -> (r: Option<
    Sent,
>)
    ensures
        match r {
            Some(s) => sent(path@, kind, remote_dir@, views(parts@)) == Some(s@),
            None => sent(path@, kind, remote_dir@, views(parts@)) is None,
        },
{
    let relative = crate::text::join_with(parts, "/");
    let remote = join(remote_dir, relative.as_str());
    match kind {
        Local::Folder => Some(Sent { local: path.to_owned(), remote, dir: true, size: 0 }),
        Local::File { size } => Some(Sent { local: path.to_owned(), remote, dir: false, size }),
        Local::Other => None,
    }
}

/// Whether what a link points to is read instead of the link: a link chosen by the user
/// is followed, links met inside folders are not.
pub fn follows_local(path: &str, root: &str) -> (r: bool)
    ensures
        r == (path@ == root@),
        r == followed_here(path@, root@),
{
    crate::text::same_str(path, root)
}

/// The walk over local files that plans an upload.
pub struct UploadWalk {
    /// Where everything goes.
    pub remote_dir: String,
    /// Paths still to look at.
    pub stack: Vec<String>,
    /// What is to be sent, folders before their contents.
    pub plan: Vec<Sent>,
}

#[verifier::ext_equal]
pub struct UploadWalkModel {
    pub remote_dir: Seq<char>,
    pub stack: Seq<Seq<char>>,
    pub plan: Seq<SentModel>,
}

impl View for UploadWalk {
    type V = UploadWalkModel;

    open spec fn view(&self) -> UploadWalkModel {
        UploadWalkModel {
            remote_dir: self.remote_dir@,
            stack: views(self.stack@),
            plan: models(self.plan@),
        }
    }
}

impl UploadWalkModel {
    /// The walk before anything was chosen.
    pub open spec fn start(remote_dir: Seq<char>) -> UploadWalkModel {
        UploadWalkModel { remote_dir, stack: Seq::empty(), plan: Seq::empty() }
    }

    /// The walk with one more path to look at.
    pub open spec fn entered(self, root: Seq<char>) -> UploadWalkModel {
        UploadWalkModel { stack: self.stack.push(root), ..self }
    }

    /// The walk without the path that is looked at next.
    pub open spec fn popped(self) -> UploadWalkModel {
        UploadWalkModel { stack: self.stack.drop_last(), ..self }
    }

    /// The walk after looking at a path: files and folders are sent, and what a folder
    /// holds is looked at later.
    pub open spec fn met(
        self,
        path: Seq<char>,
        kind: Local,
        parts: Seq<Seq<char>>,
        children: Seq<Seq<char>>,
    ) -> UploadWalkModel {
        UploadWalkModel {
            plan: match sent(path, kind, self.remote_dir, parts) {
                Some(s) => self.plan.push(s),
                None => self.plan,
            },
            stack: if kind is Folder {
                self.stack + children
            } else {
                self.stack
            },
            ..self
        }
    }
}

impl UploadWalk {
    /// A walk that sends everything to a remote folder.
    pub fn new(remote_dir: &str) -> (r: UploadWalk)
        ensures
            r@ == UploadWalkModel::start(remote_dir@),
    {
        let r = UploadWalk { remote_dir: remote_dir.to_owned(), stack: Vec::new(), plan: Vec::new() };
        assert(r@ =~= UploadWalkModel::start(remote_dir@));
        r
    }

    /// Adds a path that the user chose.
    pub fn enter(&mut self, root: &str)
        ensures
            final(self)@ == old(self)@.entered(root@),
    {
        let ghost before = self@;
        self.stack.push(root.to_owned());
        assert(self@ =~= before.entered(root@));
    }

    /// Takes the next path to look at, if there is one.
    pub fn next(&mut self) -> (path: Option<String>)
        ensures
            match path {
                Some(p) => {
                    &&& old(self)@.stack.len() > 0
                    &&& p@ == old(self)@.stack.last()
                    &&& final(self)@ == old(self)@.popped()
                },
                None => old(self)@.stack.len() == 0 && final(self)@ == old(self)@,
            },
            crate::text::opt_view(path) == old(self)@.looked_at(),
    {
        let ghost before = self@;
        let path = self.stack.pop();
        proof {
            if before.stack.len() > 0 {
                assert(self@ =~= before.popped());
            } else {
                assert(self@ =~= before);
            }
        }
        path
    }

    /// Notes what was found at a path: its kind, its parts below the folder of its root and,
    /// for a folder, the paths in it.
    pub fn met(&mut self, path: &str, kind: Local, parts: &Vec<String>, children: Vec<String>)
        ensures
            final(self)@ == old(self)@.met(path@, kind, views(parts@), views(children@)),
    {
        let ghost before = self@;
        let ghost planned = self.plan@;
        let ghost waiting = self.stack@;
        if let Some(s) = plan_upload(path, kind, self.remote_dir.as_str(), parts) {
            self.plan.push(s);
            proof {
                lemma_push(planned, s);
            }
        }
        let mut children = children;
        let ghost inside = children@;
        if let Local::Folder = kind {
            self.stack.append(&mut children);
            assert(views(waiting + inside) =~= views(waiting) + views(inside));
        }
        assert(self@ =~= before.met(path@, kind, views(parts@), views(inside)));
    }
}

/// The local files as an upload finds them: the kind of each path, its parts below the
/// folder of its root, and what is in it.
pub struct LocalTree {
    pub kind: spec_fn(Seq<char>) -> Local,
    pub parts: spec_fn(Seq<char>) -> Seq<Seq<char>>,
    pub children: spec_fn(Seq<char>) -> Seq<Seq<char>>,
}

impl UploadWalkModel {
    /// The walk after looking at its next path.
    pub open spec fn stepped(self, t: LocalTree) -> UploadWalkModel {
        if self.stack.len() == 0 {
            self
        } else {
            let path = self.stack.last();
            self.popped().met(path, (t.kind)(path), (t.parts)(path), (t.children)(path))
        }
    }

    /// Whether a path is planned, is still to be looked at, or is nothing that is sent.
    pub open spec fn handles(self, t: LocalTree, path: Seq<char>) -> bool {
        ||| (t.kind)(path) is Other
        ||| self.stack.contains(path)
        ||| exists|i: int| 0 <= i < self.plan.len() && (#[trigger] self.plan[i]).local == path
    }

    /// Whether nothing in a planned folder was forgotten.
    pub open spec fn complete(self, t: LocalTree) -> bool {
        forall|i: int, path: Seq<char>|
            0 <= i < self.plan.len() && (#[trigger] self.plan[i]).dir && (#[trigger] (t.children)(
                self.plan[i].local,
            ).contains(path)) ==> self.handles(t, path)
    }

    /// Whether a path was chosen, or is in a folder among the first `n` of the plan.
    pub open spec fn comes_from(
        self,
        t: LocalTree,
        roots: Seq<Seq<char>>,
        n: int,
        path: Seq<char>,
    ) -> bool {
        roots.contains(path) || exists|j: int|
            0 <= j < n && (#[trigger] self.plan[j]).dir && (t.children)(
                self.plan[j].local,
            ).contains(path)
    }

    /// Whether everything planned was chosen or is in a folder planned before it, and so is
    /// everything that is still to be looked at.
    pub open spec fn ordered(self, t: LocalTree, roots: Seq<Seq<char>>) -> bool {
        &&& forall|i: int|
            0 <= i < self.plan.len() ==> self.comes_from(
                t,
                roots,
                i,
                (#[trigger] self.plan[i]).local,
            )
        &&& forall|k: int|
            0 <= k < self.stack.len() ==> self.comes_from(
                t,
                roots,
                self.plan.len() as int,
                #[trigger] self.stack[k],
            )
    }
}

/// A walk starts with nothing forgotten and in order, and a path that the user chooses keeps
/// it so and is handled from then on.
pub proof fn law_upload_start(
    w: UploadWalkModel,
    t: LocalTree,
    remote_dir: Seq<char>,
    roots: Seq<Seq<char>>,
    root: Seq<char>,
)
    requires
        w.complete(t),
        w.ordered(t, roots),
    ensures
        UploadWalkModel::start(remote_dir).complete(t),
        UploadWalkModel::start(remote_dir).ordered(t, Seq::empty()),
        w.entered(root).complete(t),
        w.entered(root).ordered(t, roots.push(root)),
        w.entered(root).handles(t, root),
{
    let after = w.entered(root);
    assert(after.stack[w.stack.len() as int] == root);
    assert forall|i: int, path: Seq<char>|
        0 <= i < after.plan.len() && (#[trigger] after.plan[i]).dir && (#[trigger] (t.children)(
            after.plan[i].local,
        ).contains(path)) implies after.handles(t, path) by {
        assert(w.handles(t, path));
        if w.stack.contains(path) {
            let k = choose|k: int| 0 <= k < w.stack.len() && w.stack[k] == path;
            assert(after.stack[k] == path);
        }
    }
    assert forall|n: int, path: Seq<char>| #[trigger]
        w.comes_from(t, roots, n, path) implies after.comes_from(
        t,
        roots.push(root),
        n,
        path,
    ) by {
        if roots.contains(path) {
            let k = choose|k: int| 0 <= k < roots.len() && roots[k] == path;
            assert(roots.push(root)[k] == path);
        } else {
            let j = choose|j: int|
                0 <= j < n && (#[trigger] w.plan[j]).dir && (t.children)(w.plan[j].local).contains(
                    path,
                );
            assert(after.plan[j].dir && (t.children)(after.plan[j].local).contains(path));
        }
    }
    assert(roots.push(root)[roots.len() as int] == root);
    assert forall|i: int| 0 <= i < after.plan.len() implies after.comes_from(
        t,
        roots.push(root),
        i,
        (#[trigger] after.plan[i]).local,
    ) by {
        assert(w.comes_from(t, roots, i, w.plan[i].local));
    }
    assert forall|k: int| 0 <= k < after.stack.len() implies after.comes_from(
        t,
        roots.push(root),
        after.plan.len() as int,
        #[trigger] after.stack[k],
    ) by {
        if k < w.stack.len() {
            assert(after.stack[k] == w.stack[k]);
            assert(w.comes_from(t, roots, w.plan.len() as int, w.stack[k]));
        }
    }
}

/// A step of the walk forgets nothing: what it handled, it still handles, and so all that is
/// in the folders it planned.
pub proof fn law_upload_forgets_none(w: UploadWalkModel, t: LocalTree, path: Seq<char>)
    ensures
        w.handles(t, path) ==> w.stepped(t).handles(t, path),
        w.complete(t) ==> w.stepped(t).complete(t),
{
    if w.handles(t, path) {
        lemma_still_handled(w, t, path);
    }
    let after = w.stepped(t);
    if w.complete(t) && w.stack.len() > 0 {
        let top = w.stack.last();
        assert forall|i: int, p: Seq<char>|
            0 <= i < after.plan.len() && (#[trigger] after.plan[i]).dir && (#[trigger] (t.children)(
                after.plan[i].local,
            ).contains(p)) implies after.handles(t, p) by {
            if i < w.plan.len() {
                assert(after.plan[i] == w.plan[i]);
                assert(w.handles(t, p));
                lemma_still_handled(w, t, p);
            } else {
                let inside = (t.children)(top);
                let k = choose|k: int| 0 <= k < inside.len() && inside[k] == p;
                assert(after.stack[w.stack.len() - 1 + k] == p);
            }
        }
    }
}

proof fn lemma_still_handled(w: UploadWalkModel, t: LocalTree, path: Seq<char>)
    requires
        w.handles(t, path),
    ensures
        w.stepped(t).handles(t, path),
{
    let after = w.stepped(t);
    if w.stack.len() > 0 && !((t.kind)(path) is Other) {
        if w.stack.contains(path) {
            let k = choose|k: int| 0 <= k < w.stack.len() && w.stack[k] == path;
            if k < w.stack.len() - 1 {
                assert(after.stack[k] == path);
            } else {
                assert(after.plan[w.plan.len() as int].local == path);
            }
        } else {
            let i = choose|i: int| 0 <= i < w.plan.len() && (#[trigger] w.plan[i]).local == path;
            assert(after.plan[i] == w.plan[i]);
        }
    }
}

/// Once nothing is left to look at, everything in the folders that are sent is sent, but for
/// what is neither a file nor a folder: a link inside a folder, for one.
pub proof fn law_upload_sends_all(w: UploadWalkModel, t: LocalTree, i: int, path: Seq<char>)
    requires
        w.complete(t),
        w.stack.len() == 0,
        0 <= i < w.plan.len(),
        w.plan[i].dir,
        (t.children)(w.plan[i].local).contains(path),
        !((t.kind)(path) is Other),
    ensures
        exists|j: int| 0 <= j < w.plan.len() && (#[trigger] w.plan[j]).local == path,
{
    assert(w.handles(t, path));
}

/// Every step keeps folders before their contents, and sends only what was chosen or is in
/// a folder that is sent.
pub proof fn law_upload_folders_first(w: UploadWalkModel, t: LocalTree, roots: Seq<Seq<char>>)
    requires
        w.ordered(t, roots),
    ensures
        w.stepped(t).ordered(t, roots),
{
    if w.stack.len() > 0 {
        let after = w.stepped(t);
        let n = w.plan.len() as int;
        let top = w.stack.last();
        assert(w.stack[w.stack.len() - 1] == top);
        assert forall|i: int| 0 <= i < after.plan.len() implies after.comes_from(
            t,
            roots,
            i,
            (#[trigger] after.plan[i]).local,
        ) by {
            if i < n {
                assert(after.plan[i] == w.plan[i]);
                lemma_still_from(w, after, t, roots, i, w.plan[i].local);
            } else {
                lemma_still_from(w, after, t, roots, n, top);
            }
        }
        assert forall|k: int| 0 <= k < after.stack.len() implies after.comes_from(
            t,
            roots,
            after.plan.len() as int,
            #[trigger] after.stack[k],
        ) by {
            if k < w.stack.len() - 1 {
                assert(after.stack[k] == w.stack[k]);
                lemma_still_from(w, after, t, roots, n, w.stack[k]);
            } else {
                let inside = (t.children)(top);
                assert(after.stack[k] == inside[k - (w.stack.len() - 1)]);
                assert(after.plan[n].dir && after.plan[n].local == top);
            }
        }
    }
}

proof fn lemma_still_from(
    w: UploadWalkModel,
    after: UploadWalkModel,
    t: LocalTree,
    roots: Seq<Seq<char>>,
    n: int,
    path: Seq<char>,
)
    requires
        w.comes_from(t, roots, n, path),
        n <= w.plan.len() <= after.plan.len(),
        forall|i: int| 0 <= i < w.plan.len() ==> after.plan[i] == w.plan[i],
    ensures
        after.comes_from(t, roots, n, path),
        after.comes_from(t, roots, after.plan.len() as int, path),
{
    if !roots.contains(path) {
        let j = choose|j: int|
            0 <= j < n && (#[trigger] w.plan[j]).dir && (t.children)(w.plan[j].local).contains(path);
        assert(after.plan[j].dir && (t.children)(after.plan[j].local).contains(path));
    }
}

/// What an upload weighs.
pub open spec fn upload_size(plan: Seq<SentModel>) -> nat
    decreases plan.len(),
{
    if plan.len() == 0 {
        0
    } else {
        upload_size(plan.drop_last()) + plan.last().size as nat
    }
}

proof fn lemma_upload_grows(plan: Seq<SentModel>, n: int)
    requires
        0 <= n <= plan.len(),
    ensures
        upload_size(plan.take(n)) <= upload_size(plan),
    decreases plan.len() - n,
{
    if n < plan.len() {
        assert(plan.take(n + 1).drop_last() =~= plan.take(n));
        lemma_upload_grows(plan, n + 1);
    } else {
        assert(plan.take(n) =~= plan);
    }
}

/// Adds up what an upload weighs, where the sum fits.
pub fn total_sent(plan: &Vec<Sent>) -> (r: Option<u64>)
    ensures
        match r {
            Some(n) => n == upload_size(models(plan@)),
            None => upload_size(models(plan@)) > u64::MAX,
        },
{
    let mut total: u64 = 0;
    let mut i: usize = 0;
    let ghost all = models(plan@);
    assert(all.take(0) =~= Seq::empty());
    while i < plan.len()
        invariant
            i <= plan@.len(),
            all == models(plan@),
            total == upload_size(all.take(i as int)),
        decreases plan.len() - i,
    {
        proof {
            assert(all.take(i + 1).drop_last() =~= all.take(i as int));
            lemma_upload_grows(all, i + 1);
        }
        let n: u64 = plan[i].size;
        if n > u64::MAX - total {
            return None;
        }
        total += n;
        i += 1;
    }
    assert(all.take(i as int) =~= all);
    Some(total)
}

/// What to do about one item of an upload.
#[derive(Clone, Copy, PartialEq, Eq, Structural, Debug)]
pub enum Upload {
    MakeFolder,
    /// The folder is there already, which is fine.
    FolderExists,
    /// The file exists and is kept.
    Skip,
    Copy,
}

/// Decides what to do about one item of an upload, given whether something
/// stands where it would go.
pub fn upload(dir: bool, exists: bool, overwrite: bool) -> (r: Upload)
    ensures
        r == if dir {
            if exists {
                Upload::FolderExists
            } else {
                Upload::MakeFolder
            }
        } else if exists && !overwrite {
            Upload::Skip
        } else {
            Upload::Copy
        },
        r == upload_step(dir, exists, overwrite),
{
    if dir {
        if exists {
            Upload::FolderExists
        } else {
            Upload::MakeFolder
        }
    } else if exists && !overwrite {
        Upload::Skip
    } else {
        Upload::Copy
    }
}

/// The transfers asked for and not finished, and which of them were cancelled.
pub struct Transfers {
    pub cancels: HashMap<u64, bool>,
}

/// The id of a transfer, if a request is one.
pub open spec fn transfer_id(r: RequestModel) -> Option<u64> {
    match r {
        RequestModel::Download { id, .. } => Some(id),
        RequestModel::Upload { id, .. } => Some(id),
        _ => None,
    }
}

/// The id of a transfer, if a request is one.
pub fn id_of(request: &Request) -> (r: Option<u64>)
    ensures
        r == transfer_id(request@),
{
    match request {
        Request::Download { id, .. } => Some(*id),
        Request::Upload { id, .. } => Some(*id),
        _ => None,
    }
}

/// Transfers after one of them was cancelled, if it is among them.
pub open spec fn with_cancel(m: Map<u64, bool>, id: u64) -> Map<u64, bool> {
    if m.contains_key(id) {
        m.insert(id, true)
    } else {
        m
    }
}

/// Whether a transfer is known and was cancelled.
pub open spec fn is_cancelled(m: Map<u64, bool>, id: u64) -> bool {
    m.contains_key(id) && m[id]
}

/// What a request taken from the queue leads to.
pub enum Begin {
    /// It is no transfer.
    Nothing,
    /// Copy what it names.
    Run(Request),
    /// It is over already: these events follow.
    Over(Vec<Event>),
}

#[verifier::ext_equal]
pub enum BeginModel {
    Nothing,
    Run(RequestModel),
    Over(Seq<EventModel>),
}

impl View for Begin {
    type V = BeginModel;

    open spec fn view(&self) -> BeginModel {
        match *self {
            Begin::Nothing => BeginModel::Nothing,
            Begin::Run(request) => BeginModel::Run(request@),
            Begin::Over(events) => BeginModel::Over(models(events@)),
        }
    }
}

/// What becomes of the transfers when a request is taken from the queue, and what it
/// leads to.
pub open spec fn begun(m: Map<u64, bool>, request: RequestModel, queue_empty: bool) -> (
    Map<u64, bool>,
    BeginModel,
) {
    match transfer_id(request) {
        None => (m, BeginModel::Nothing),
        Some(id) => if is_cancelled(m, id) {
            (
                m.remove(id),
                BeginModel::Over(finished_events(id, Err("cancelled"@), queue_empty)),
            )
        } else {
            (m, BeginModel::Run(request))
        },
    }
}

impl Transfers {
    pub fn new() -> (r: Transfers)
        ensures
            r.cancels@ == Map::<u64, bool>::empty(),
    {
        Transfers { cancels: HashMap::new() }
    }

    /// Notes a request that is sent. A transfer can be cancelled from the start,
    /// even while it is queued.
    pub fn send(&mut self, request: &Request)
        ensures
            final(self).cancels@ == match transfer_id(request@) {
                Some(id) => old(self).cancels@.insert(id, false),
                None => old(self).cancels@,
            },
            final(self).cancels@ == queued_in(old(self).cancels@, request@),
    {
        if let Some(id) = id_of(request) {
            self.cancels.insert(id, false);
        }
    }

    /// Cancels a transfer, running or queued, right away.
    pub fn cancel(&mut self, id: u64)
        ensures
            final(self).cancels@ == with_cancel(old(self).cancels@, id),
    {
        if self.cancels.contains_key(&id) {
            self.cancels.insert(id, true);
        }
    }

    /// Whether a transfer was cancelled.
    pub fn cancelled(&self, id: u64) -> (r: bool)
        ensures
            r == is_cancelled(self.cancels@, id),
    {
        match self.cancels.get(&id) {
            Some(c) => *c,
            None => false,
        }
    }

    /// Whether a transfer goes on: the error is that of one that was cancelled.
    pub fn start(&self, id: u64) -> (r: Result<(), String>)
        ensures
            r is Err == is_cancelled(self.cancels@, id),
            r matches Err(e) ==> e@ == "cancelled"@,
    {
        if self.cancelled(id) {
            Err("cancelled".to_owned())
        } else {
            Ok(())
        }
    }

    /// Takes a request from the queue. A transfer that was cancelled while it waited is
    /// over at once, and nothing of it is handed out to be copied.
    pub fn begin(&mut self, request: Request, queue_empty: bool) -> (r: Begin)
        ensures
            (final(self).cancels@, r@) == begun(old(self).cancels@, request@, queue_empty),
    {
        let id = match id_of(&request) {
            Some(id) => id,
            None => {
                return Begin::Nothing;
            },
        };
        match self.start(id) {
            Ok(_) => Begin::Run(request),
            Err(e) => Begin::Over(self.finish(id, Err(e), queue_empty)),
        }
    }

    /// Forgets a transfer that is over; gives the events that follow. Listings
    /// are refreshed once the queue is done, not after each of its items.
    pub fn finish(&mut self, id: u64, result: Result<u64, String>, queue_empty: bool) -> (r: Vec<
        Event,
    >)
        ensures
            final(self).cancels@ == old(self).cancels@.remove(id),
            final(self).cancels@ == over_in(old(self).cancels@, id),
            models(r@) == finished_events(id, result_view(result), queue_empty),
    {
        self.cancels.remove(&id);
        let mut r: Vec<Event> = Vec::new();
        r.push(Event::Finished { id, result });
        if queue_empty {
            r.push(Event::Changed);
        }
        assert(models(r@) =~= finished_events(id, result_view(result), queue_empty));
        r
    }
}

/// How a transfer ended, the error as a text.
pub open spec fn result_view(result: Result<u64, String>) -> Result<u64, Seq<char>> {
    match result {
        Ok(n) => Ok(n),
        Err(e) => Err(e@),
    }
}

/// The events at the end of a transfer.
pub open spec fn finished_events(
    id: u64,
    result: Result<u64, Seq<char>>,
    queue_empty: bool,
) -> Seq<EventModel> {
    let done = EventModel::Finished { id, result };
    if queue_empty {
        seq![done, EventModel::Changed]
    } else {
        seq![done]
    }
}

/// Something that happens to the transfers while one of them waits.
pub enum Act {
    Send(u64),
    Cancel(u64),
    Finish(u64),
}

/// The transfers after one more thing happened.
pub open spec fn after_act(m: Map<u64, bool>, act: Act) -> Map<u64, bool> {
    match act {
        Act::Send(id) => m.insert(id, false),
        Act::Cancel(id) => with_cancel(m, id),
        Act::Finish(id) => m.remove(id),
    }
}

/// The transfers after several things happened, one after the other.
pub open spec fn after(m: Map<u64, bool>, acts: Seq<Act>) -> Map<u64, bool>
    decreases acts.len(),
{
    if acts.len() == 0 {
        m
    } else {
        after_act(after(m, acts.drop_last()), acts.last())
    }
}

/// Whether a transfer is neither sent again nor finished by what happens.
pub open spec fn waits(acts: Seq<Act>, id: u64) -> bool {
    forall|i: int|
        0 <= i < acts.len() ==> (#[trigger] acts[i]) != Act::Send(id) && acts[i] != Act::Finish(id)
}

/// A transfer that was cancelled while it waited, whatever happens to it and to others
/// until its turn, is over when its turn comes: with one end and that error, and
/// nothing of it is handed out to be copied. It is then forgotten.
pub proof fn law_cancel_queued(
    m: Map<u64, bool>,
    request: RequestModel,
    acts: Seq<Act>,
    queue_empty: bool,
)
    requires
        transfer_id(request) is Some,
        m.contains_key(transfer_id(request)->0),
        waits(acts, transfer_id(request)->0),
    ensures
        ({
            let id = transfer_id(request)->0;
            let (rest, step) = begun(after(with_cancel(m, id), acts), request, queue_empty);
            let end = EventModel::Finished { id, result: Err("cancelled"@) };
            &&& step == BeginModel::Over(
                if queue_empty {
                    seq![end, EventModel::Changed]
                } else {
                    seq![end]
                },
            )
            &&& !rest.contains_key(id)
        }),
{
    lemma_stays_cancelled(with_cancel(m, transfer_id(request)->0), acts, transfer_id(request)->0);
}

proof fn lemma_stays_cancelled(m: Map<u64, bool>, acts: Seq<Act>, id: u64)
    requires
        is_cancelled(m, id),
        waits(acts, id),
    ensures
        is_cancelled(after(m, acts), id),
    decreases acts.len(),
{
    if acts.len() > 0 {
        assert(acts.last() == acts[acts.len() - 1]);
        assert forall|i: int| 0 <= i < acts.drop_last().len() implies (
        #[trigger] acts.drop_last()[i]) != Act::Send(id) && acts.drop_last()[i] != Act::Finish(
            id,
        ) by {
            assert(acts.drop_last()[i] == acts[i]);
        }
        lemma_stays_cancelled(m, acts.drop_last(), id);
    }
}

/// Cancelling a transfer leaves every other one as it is, and cancelling one that is
/// unknown or over does nothing.
pub proof fn law_cancel_only_one(m: Map<u64, bool>, id: u64, acts: Seq<Act>, other: u64)
    ensures
        !m.contains_key(id) ==> with_cancel(m, id) == m,
        other != id ==> {
            let (touched, left) = (after(with_cancel(m, id), acts), after(m, acts));
            &&& touched.contains_key(other) == left.contains_key(other)
            &&& is_cancelled(touched, other) == is_cancelled(left, other)
        },
    decreases acts.len(),
{
    if acts.len() > 0 {
        law_cancel_only_one(m, id, acts.drop_last(), other);
    }
}

/// What came of a request.
#[derive(Debug)]
pub enum Outcome {
    Entries(Vec<Entry>),
    Done,
    Failed(String),
}

#[verifier::ext_equal]
pub enum OutcomeModel {
    Entries(Seq<EntryModel>),
    Done,
    Failed(Seq<char>),
}

impl View for Outcome {
    type V = OutcomeModel;

    open spec fn view(&self) -> OutcomeModel {
        match *self {
            Outcome::Entries(e) => OutcomeModel::Entries(models(e@)),
            Outcome::Done => OutcomeModel::Done,
            Outcome::Failed(e) => OutcomeModel::Failed(e@),
        }
    }
}

/// The event that answers a request. Transfers are queued and answer later.
pub open spec fn reply_to(request: RequestModel, outcome: OutcomeModel) -> Option<EventModel> {
    match request {
        RequestModel::Download { .. } => None,
        RequestModel::Upload { .. } => None,
        RequestModel::List(path) => match outcome {
            OutcomeModel::Entries(entries) => Some(EventModel::Listing { path, entries }),
            OutcomeModel::Done => Some(EventModel::Listing { path, entries: Seq::empty() }),
            OutcomeModel::Failed(error) => Some(EventModel::ListFailed { path, error }),
        },
        _ => match outcome {
            OutcomeModel::Failed(error) => Some(EventModel::Error(error)),
            _ => Some(EventModel::Changed),
        },
    }
}

/// Answers a request, given what came of it.
pub fn reply(request: &Request, outcome: Outcome) -> (r: Option<Event>)
    ensures
        match r {
            Some(e) => reply_to(request@, outcome@) == Some(e@),
            None => reply_to(request@, outcome@) is None,
        },
{
    match request {
        Request::Download { .. } => None,
        Request::Upload { .. } => None,
        Request::List(path) => Some(
            match outcome {
                Outcome::Entries(entries) => Event::Listing { path: path.clone(), entries },
                Outcome::Done => {
                    let entries: Vec<Entry> = Vec::new();
                    assert(models(entries@) =~= Seq::empty());
                    Event::Listing { path: path.clone(), entries }
                },
                Outcome::Failed(error) => Event::ListFailed { path: path.clone(), error },
            },
        ),
        _ => Some(
            match outcome {
                Outcome::Failed(error) => Event::Error(error),
                _ => Event::Changed,
            },
        ),
    }
}

/// How many bytes a character takes.
pub open spec fn char_bytes(c: char) -> nat {
    let n = c as u32;
    if n < 0x80 {
        1
    } else if n < 0x800 {
        2
    } else if n < 0x10000 {
        3
    } else {
        4
    }
}

/// How many bytes a text takes.
pub open spec fn text_bytes(s: Seq<char>) -> nat
    decreases s.len(),
{
    if s.len() == 0 {
        0
    } else {
        char_bytes(s[0]) + text_bytes(s.drop_first())
    }
}

/// How much of ssh's error output is kept, in bytes.
pub const LAST_WORDS: usize = 4096;

/// The end of a text that takes at most `LAST_WORDS` bytes.
pub open spec fn tail(s: Seq<char>) -> Seq<char>
    decreases s.len(),
{
    if s.len() == 0 || text_bytes(s) <= LAST_WORDS {
        s
    } else {
        tail(s.drop_first())
    }
}

fn bytes_of(c: char) -> (r: usize)
    ensures
        r == char_bytes(c),
        1 <= r <= 4,
{
    let n = c as u32;
    if n < 0x80 {
        1
    } else if n < 0x800 {
        2
    } else if n < 0x10000 {
        3
    } else {
        4
    }
}

/// Adds to ssh's error output and keeps the end of it.
pub fn heard(words: &str, more: &str) -> (r: String)
    ensures
        r@ == tail(words@ + more@),
{
    let mut all = to_chars(words);
    crate::text::append(&mut all, &to_chars(more));
    let ghost s = all@;
    // Count from the end, up to the first character that does not fit.
    let mut i: usize = all.len();
    let mut n: usize = 0;
    assert(s.skip(i as int) =~= Seq::empty());
    while i > 0 && n + bytes_of(all[i - 1]) <= LAST_WORDS
        invariant
            i <= s.len(),
            all@ == s,
            n <= LAST_WORDS,
            n == text_bytes(s.skip(i as int)),
        decreases i,
    {
        n += bytes_of(all[i - 1]);
        i -= 1;
        assert(s.skip(i as int).drop_first() =~= s.skip(i + 1));
    }
    proof {
        if i > 0 {
            assert(s.skip(i - 1).drop_first() =~= s.skip(i as int));
        }
        lemma_tail(s, i as int);
    }
    let end = slice(&all, i, all.len());
    assert(end@ =~= s.skip(i as int));
    from_chars(&end)
}

proof fn lemma_tail(s: Seq<char>, i: int)
    requires
        0 <= i <= s.len(),
        text_bytes(s.skip(i)) <= LAST_WORDS,
        i > 0 ==> text_bytes(s.skip(i - 1)) > LAST_WORDS,
    ensures
        tail(s) == s.skip(i),
    decreases i,
{
    if i == 0 {
        assert(s.skip(0) =~= s);
    } else {
        lemma_bytes_skip(s, i - 1);
        let rest = s.drop_first();
        assert(rest.skip(i - 1) =~= s.skip(i));
        if i > 1 {
            assert(rest.skip(i - 2) =~= s.skip(i - 1));
        }
        lemma_tail(rest, i - 1);
    }
}

proof fn lemma_bytes_skip(s: Seq<char>, i: int)
    requires
        0 <= i <= s.len(),
    ensures
        text_bytes(s.skip(i)) <= text_bytes(s),
    decreases i,
{
    if i > 0 {
        lemma_bytes_skip(s.drop_first(), i - 1);
        assert(s.drop_first().skip(i - 1) =~= s.skip(i));
    } else {
        assert(s.skip(0) =~= s);
    }
}

/// What is said when the connection is over.
pub open spec fn closing_words(words: Seq<char>) -> Seq<char> {
    if trimmed(words).len() == 0 {
        "ssh ended"@
    } else {
        trimmed(words)
    }
}

/// The event at the end of a connection, with ssh's last words.
pub fn closed(words: &str) -> (r: Event)
    ensures
        r@ == EventModel::Closed(closing_words(words@)),
{
    let t = crate::text::trim_str(words);
    if to_chars(t.as_str()).len() == 0 {
        Event::Closed("ssh ended".to_owned())
    } else {
        Event::Closed(t)
    }
}

/// How a session ends.
pub enum Ending {
    /// ssh ended, by itself or stopped from outside.
    Ended,
    /// The connection was dropped.
    Dropped,
    /// ssh runs, but no session could be opened: the error.
    Refused(String),
}

/// What is to be said at the end of a session, and whether ssh has to be stopped. A
/// session that could not be opened is explained by what ssh wrote, which is told when
/// ssh ends, or by its own error where ssh wrote nothing.
pub open spec fn ending_of(ending: Ending, words: Seq<char>) -> (Option<EventModel>, bool) {
    match ending {
        Ending::Ended => (Some(EventModel::Closed(closing_words(words))), false),
        Ending::Dropped => (None, true),
        Ending::Refused(error) => (
            if trimmed(words).len() == 0 {
                Some(EventModel::Closed(error@))
            } else {
                None
            },
            true,
        ),
    }
}

/// Ends a session: the event that tells of it, if any, and whether to stop ssh.
pub fn end(ending: Ending, words: &str) -> (r: (Option<Event>, bool))
    ensures
        (event_view(r.0), r.1) == ending_of(ending, words@),
{
    match ending {
        Ending::Ended => (Some(closed(words)), false),
        Ending::Dropped => (None, true),
        Ending::Refused(error) => {
            let t = crate::text::trim_str(words);
            if to_chars(t.as_str()).len() == 0 {
                (Some(Event::Closed(error)), true)
            } else {
                (None, true)
            }
        },
    }
}

/// An event, if there is one.
pub open spec fn event_view(e: Option<Event>) -> Option<EventModel> {
    match e {
        Some(e) => Some(e@),
        None => None,
    }
}

/// Everything heard from ssh, part by part: the end of it.
pub open spec fn heard_all(parts: Seq<Seq<char>>) -> Seq<char>
    decreases parts.len(),
{
    if parts.len() == 0 {
        Seq::empty()
    } else {
        tail(heard_all(parts.drop_last()) + parts.last())
    }
}

/// When ssh ends, the file manager is told, and told why: in what ssh wrote last, at
/// most so many bytes of it, or that ssh ended where it wrote nothing.
pub proof fn law_end_is_told(parts: Seq<Seq<char>>)
    ensures
        ({
            let words = heard_all(parts);
            &&& text_bytes(words) <= LAST_WORDS
            &&& ending_of(Ending::Ended, words) == (
                Some(EventModel::Closed(closing_words(words))),
                false,
            )
            &&& closing_words(words).len() > 0
            &&& closing_words(words) == trimmed(words) || closing_words(words) == "ssh ended"@
        }),
{
    if parts.len() > 0 {
        lemma_tail_fits(heard_all(parts.drop_last()) + parts.last());
    }
    reveal_strlit("ssh ended");
}

proof fn lemma_tail_fits(s: Seq<char>)
    ensures
        text_bytes(tail(s)) <= LAST_WORDS,
    decreases s.len(),
{
    if s.len() > 0 && text_bytes(s) > LAST_WORDS {
        lemma_tail_fits(s.drop_first());
    }
}

/// What an upload does with one path.
pub open spec fn upload_step(dir: bool, exists: bool, overwrite: bool) -> Upload {
    if dir {
        if exists {
            Upload::FolderExists
        } else {
            Upload::MakeFolder
        }
    } else if exists && !overwrite {
        Upload::Skip
    } else {
        Upload::Copy
    }
}

/// How much was received after `n` more bytes, unless that is too much.
pub open spec fn received_after(received: nat, n: nat, size: Option<u64>) -> Option<nat> {
    if received + n <= allowance(size) {
        Some(received + n)
    } else {
        None
    }
}

/// The permissions that a copy takes over.
pub open spec fn copied_bits(mode: u32) -> u32 {
    mode & 0x1ff
}

impl Progress {
    /// After `n` more bytes.
    pub open spec fn grown(self, n: nat) -> Progress {
        Progress { done: (self.done + n) as u64, ..self }
    }

    /// What is told of it.
    pub open spec fn told(self, current: Seq<char>) -> EventModel {
        EventModel::Progress { id: self.id, done: self.done, total: self.total, current }
    }
}

/// Whether it is time to tell.
pub open spec fn time_to_tell(elapsed: u64) -> bool {
    elapsed > REPORT_EVERY
}

/// Whether a local link is followed.
pub open spec fn followed_here(path: Seq<char>, root: Seq<char>) -> bool {
    path == root
}

/// The transfers after a request was sent.
pub open spec fn queued_in(m: Map<u64, bool>, request: RequestModel) -> Map<u64, bool> {
    match transfer_id(request) {
        Some(id) => m.insert(id, false),
        None => m,
    }
}

/// The transfers after one is over.
pub open spec fn over_in(m: Map<u64, bool>, id: u64) -> Map<u64, bool> {
    m.remove(id)
}

impl UploadWalkModel {
    /// The path that is looked at next.
    pub open spec fn looked_at(self) -> Option<Seq<char>> {
        if self.stack.len() > 0 {
            Some(self.stack.last())
        } else {
            None
        }
    }
}

} // verus!
