//! What is listed of a folder, how a folder is walked through, and what is done with each
//! file of a transfer.

use crate::files::{pending, FileManagerModel, Side, TransferModel};
use crate::panel::PanelModel;
use crate::sftp::{
    entry_of, forbidden, joined_path, listed_entry, listing, local_entry_of, permission_bits,
    plain_name, AttrsModel, EntryModel, EventModel, ListedModel, LocalFile,
};
use crate::shortcut::Platform;
use crate::text::{begins, ends};
use crate::transfer::{
    copied_bits, followed_here, received_after, time_to_tell, upload_step, Progress, Upload,
};
use crate::walk::{followed, true_folder, FoundModel, StepModel, WalkError, WalkModel};
use vstd::prelude::*;

verus! {

/// What is listed of a file is what the server tells of it: its name, its kind, its size, its
/// time and the lower bits of its mode; its owner by name, or else by number.
pub proof fn law_entry_of(name: Seq<char>, a: AttrsModel)
    ensures
        ({
            let e = entry_of(name, a);
            &&& e.name == name && e.is_dir == a.dir && e.is_link == a.link
            &&& a.size matches Some(n) ==> e.size == n
            &&& a.size is None ==> e.size == 0
            &&& (e.mtime is Some) == (a.mtime is Some)
            &&& a.mtime matches Some(t) ==> e.mtime == Some(t as i64)
            &&& (e.mode is Some) == (a.permissions is Some)
            &&& a.permissions matches Some(p) ==> e.mode == Some(p & 0xfff)
            &&& a.user matches Some(u) ==> e.owner == Some(u)
            &&& a.user is None && a.uid is None ==> e.owner is None
            &&& a.user is None && a.uid is Some ==> e.owner == Some(
                crate::text::decimal(a.uid->0 as nat),
            )
        }),
{
}

/// A local file is listed as it is; a link to a folder counts as a folder.
pub proof fn law_local_entry(f: LocalFile)
    ensures
        ({
            let e = local_entry_of(f);
            &&& e.name == f.name@ && e.is_link == f.link && e.size == f.size
            &&& !f.link ==> e.is_dir == f.dir
            &&& f.link ==> (f.target_dir matches Some(d) ==> e.is_dir == d)
            &&& f.mode matches Some(m) ==> e.mode == Some(m & 0xfff)
            &&& f.mode is None ==> e.mode is None
            &&& f.modified matches Some(t) ==> e.mtime == Some(t as i64)
            &&& e.owner is None
        }),
{
}

/// The permissions are the lower twelve bits of a mode, and a copy takes over nine of them:
/// no bit of theirs is lost and none is added.
pub proof fn law_permission_bits(mode: u32)
    ensures
        permission_bits(mode) <= 0xfff,
        mode <= 0xfff ==> permission_bits(mode) == mode,
        copied_bits(mode) <= 0x1ff,
        mode <= 0x1ff ==> copied_bits(mode) == mode,
        copied_bits(permission_bits(mode)) == copied_bits(mode),
{
    assert(mode & 0xfff <= 0xfff) by (bit_vector);
    assert(mode <= 0xfff ==> mode & 0xfff == mode) by (bit_vector);
    assert(mode & 0x1ff <= 0x1ff) by (bit_vector);
    assert(mode <= 0x1ff ==> mode & 0x1ff == mode) by (bit_vector);
    assert((mode & 0xfff) & 0x1ff == mode & 0x1ff) by (bit_vector);
}

/// A file that the server lists is shown if it has a plain name, in the order of the server;
/// a link to a folder counts as a folder.
pub proof fn law_listing_shows(items: Seq<ListedModel>, item: ListedModel, platform: Platform)
    ensures
        listing(Seq::empty(), platform).len() == 0,
        plain_name(item.name, platform) ==> listing(items.push(item), platform) == listing(
            items,
            platform,
        ).push(listed_entry(item)),
        !plain_name(item.name, platform) ==> listing(items.push(item), platform) == listing(
            items,
            platform,
        ),
        listed_entry(item).name == item.name,
        listed_entry(item).size == entry_of(item.name, item.attrs).size,
        !item.attrs.link ==> listed_entry(item) == entry_of(item.name, item.attrs),
        item.attrs.link ==> (item.target_dir matches Some(d) ==> listed_entry(item).is_dir == d),
        item.target_dir is None ==> listed_entry(item) == entry_of(item.name, item.attrs),
{
    assert(items.push(item).drop_last() =~= items);
}

/// A plain name holds no separator, and is neither the folder itself nor the one above it.
pub proof fn law_plain_names(name: Seq<char>, platform: Platform, i: int)
    ensures
        plain_name(name, platform) ==> name.len() > 0 && name != "."@ && name != ".."@,
        plain_name(name, platform) && 0 <= i < name.len() ==> name[i] != '/' && name[i] != '\0' && (
        platform is Windows ==> name[i] != '\\' && name[i] != ':'),
        name.len() > 2 && (forall|k: int| 0 <= k < name.len() ==> 'a' <= #[trigger] name[k] <= 'z')
            ==> plain_name(name, platform),
{
    reveal_strlit(".");
    reveal_strlit("..");
    if name.len() > 2 && (forall|k: int| 0 <= k < name.len() ==> 'a' <= #[trigger] name[k] <= 'z') {
        assert forall|k: int| 0 <= k < name.len() implies !forbidden(
            #[trigger] name[k],
            platform,
        ) by {
            assert('a' <= name[k] <= 'z');
        }
    }
}

/// A walk starts with its root, and reads it where it is a folder and no link.
pub proof fn law_walk_starts(root: Seq<char>, attrs: AttrsModel)
    ensures
        ({
            let w = WalkModel::start(root, attrs);
            &&& w.out == seq![FoundModel { path: root, attrs }]
            &&& attrs.dir && !attrs.link ==> w.advanced().1 && w.advanced().0.current.0 == root
            &&& !attrs.dir || attrs.link ==> !w.advanced().1
        }),
{
}

/// A walk skips the folder itself and its parent, stops at a name that is none, asks about a
/// folder, and takes anything else, at its path.
pub proof fn law_walk_meets(w: WalkModel, name: Seq<char>, attrs: AttrsModel, platform: Platform)
    requires
        w.out.len() < 1_000_000,
    ensures
        w.met("."@, attrs, platform) == (w, StepModel::Skip),
        w.met(".."@, attrs, platform) == (w, StepModel::Skip),
        name != "."@ && name != ".."@ && !plain_name(name, platform) ==> w.met(
            name,
            attrs,
            platform,
        ) == (w, StepModel::Stop(WalkError::SuspectName)),
        plain_name(name, platform) && attrs.dir ==> w.met(name, attrs, platform) == (
            w,
            StepModel::Ask(joined_path(w.current.0, name)),
        ),
        plain_name(name, platform) && !attrs.dir ==> w.met(name, attrs, platform).1
            == StepModel::Taken && w.met(name, attrs, platform).0.out == w.out.push(
            FoundModel { path: joined_path(w.current.0, name), attrs },
        ) && w.met(name, attrs, platform).0.stack == w.stack,
{
}

/// A folder that was asked about is read later, one level deeper; a link is taken and not
/// followed. A walk that would go too deep or find too much stops.
pub proof fn law_walk_takes(w: WalkModel, path: Seq<char>, attrs: AttrsModel)
    ensures
        attrs.dir && !attrs.link && w.current.1 < 64 ==> {
            let r = w.taken(path, attrs).0;
            &&& r.out == w.out.push(FoundModel { path, attrs })
            &&& r.stack.len() == w.stack.len() + 1
            &&& r.stack.last().0 == path && r.stack.last().1 == w.current.1 + 1
        },
        attrs.dir && !attrs.link && w.current.1 >= 64 ==> w.taken(path, attrs) == (
            w,
            StepModel::Stop(WalkError::TooDeep),
        ),
        attrs.link ==> w.taken(path, attrs).0.stack == w.stack && w.taken(path, attrs).0.out
            == w.out.push(FoundModel { path, attrs }),
        (!attrs.dir || attrs.link || w.current.1 < 64) && w.out.len() < 1_000_000 ==> w.taken(
            path,
            attrs,
        ).1 == StepModel::Taken,
        (!attrs.dir || attrs.link || w.current.1 < 64) && w.out.len() >= 1_000_000 ==> w.taken(
            path,
            attrs,
        ).1 == StepModel::Stop(WalkError::TooMany),
        true_folder(attrs) == (attrs.dir && !attrs.link),
{
}

/// The folder that is read next is the one that was found last and was not read yet.
pub proof fn law_walk_goes_on(w: WalkModel)
    ensures
        w.stack.len() == 0 ==> w.advanced() == (w, false),
        w.stack.len() > 0 && !w.visited.contains(w.stack.last().0) ==> {
            let (r, more) = w.advanced();
            &&& more
            &&& r.current == w.stack.last()
            &&& r.stack == w.stack.drop_last()
            &&& r.visited == w.visited.push(w.stack.last().0)
            &&& r.out == w.out
        },
        w.stack.len() > 0 && w.visited.contains(w.stack.last().0) ==> w.advanced() == (WalkModel {
            stack: w.stack.drop_last(),
            ..w
        }).advanced(),
        w.advanced().1 ==> !w.visited.contains(w.advanced().0.current.0),
    decreases w.stack.len(),
{
    if w.stack.len() > 0 && w.visited.contains(w.stack.last().0) {
        law_walk_goes_on(WalkModel { stack: w.stack.drop_last(), ..w });
    }
}

/// Only the root of a walk may be a link that is followed, and only where that is asked.
pub proof fn law_links_followed(path: Seq<char>, root: Seq<char>)
    ensures
        followed(true, true),
        !followed(true, false),
        !followed(false, true),
        followed_here(root, root),
        path != root ==> !followed_here(path, root),
{
}

/// An upload makes the folders that are missing, copies the files, and replaces one that is
/// there only where that was confirmed.
pub proof fn law_upload_decides(exists: bool, overwrite: bool)
    ensures
        upload_step(true, false, overwrite) == Upload::MakeFolder,
        upload_step(true, true, overwrite) == Upload::FolderExists,
        upload_step(false, false, overwrite) == Upload::Copy,
        upload_step(false, true, true) == Upload::Copy,
        upload_step(false, true, false) == Upload::Skip,
{
}

/// What comes in adds up; a server that sends much more than it said is stopped.
pub proof fn law_received(received: nat, n: nat, size: u64)
    ensures
        received_after(received, n, Some(size)) matches Some(v) ==> v == received + n,
        received + n <= size ==> received_after(received, n, Some(size)) is Some,
        received + n > size + 0x10_0000 ==> received_after(received, n, Some(size)) is None,
        received + n <= u64::MAX ==> received_after(received, n, None) == Some(received + n),
{
}

/// Progress adds up and is told under the id of its transfer, not more often than a few times
/// a second.
pub proof fn law_progress(p: Progress, n: nat, current: Seq<char>, elapsed: u64)
    requires
        p.done + n <= u64::MAX,
    ensures
        p.grown(n).done == p.done + n,
        p.grown(n).total == p.total,
        p.grown(n).id == p.id,
        p.grown(n).told(current) == (EventModel::Progress {
            id: p.id,
            done: (p.done + n) as u64,
            total: p.total,
            current,
        }),
        time_to_tell(elapsed) == (elapsed > 150),
{
}

/// A file manager is busy as long as a transfer waits or runs; those that are over are
/// cleared, and no others.
pub proof fn law_cleared(m: FileManagerModel, t: TransferModel)
    ensures
        m.transferring_now() <==> exists|i: int|
            0 <= i < m.transfers.len() && ((#[trigger] m.transfers[i]).state is Queued
                || m.transfers[i].state is Running),
        m.cleared().transfers.contains(t) <==> m.transfers.contains(t) && (t.state is Queued
            || t.state is Running),
        m.cleared().error is None,
        m.cleared().outbox == m.outbox,
{
    broadcast use vstd::seq_lib::group_filter_ensures;

    let f = |t: TransferModel| pending(t);
    let kept = m.transfers.filter(f);
    if kept.contains(t) {
        m.transfers.lemma_filter_contains_rev(f, t);
        let k = choose|k: int| 0 <= k < kept.len() && kept[k] == t;
        assert(f(kept[k]));
    }
    if m.transfers.contains(t) && pending(t) {
        let k = choose|k: int| 0 <= k < m.transfers.len() && m.transfers[k] == t;
        assert(f(m.transfers[k]));
    }
    if m.transferring_now() {
        let i = choose|i: int| 0 <= i < m.transfers.len() && pending(#[trigger] m.transfers[i]);
        assert(m.transfers[i].state is Queued || m.transfers[i].state is Running);
    }
    if exists|i: int|
        0 <= i < m.transfers.len() && ((#[trigger] m.transfers[i]).state is Queued
            || m.transfers[i].state is Running) {
        let i = choose|i: int|
            0 <= i < m.transfers.len() && ((#[trigger] m.transfers[i]).state is Queued
                || m.transfers[i].state is Running);
        assert(pending(m.transfers[i]));
    }
}

/// The remote folder is remembered once one is shown. A session that is over is hung up, and
/// no other.
pub proof fn law_hung_up(m: FileManagerModel)
    ensures
        m.remote.path.len() > 0 ==> m.remote_folder() == Some(m.remote.path),
        m.remote.path.len() == 0 ==> m.remote_folder() is None,
        m.status is Closed ==> !m.hung_up().connected,
        !(m.status is Closed) ==> m.hung_up() == m,
        m.hung_up().transfers == m.transfers,
{
}

/// The local folder shows what was read; where it could not be read that is told, and the
/// panel goes back to the folder before.
pub proof fn law_local_read(
    m: FileManagerModel,
    entries: Seq<EntryModel>,
    error: Seq<char>,
    previous: Seq<char>,
)
    ensures
        m.local_read(Ok(entries)).local.entries == entries,
        m.local_read(Ok(entries)).local.path == m.local.path,
        m.local_read(Ok(entries)).error == m.error,
        m.local_read(Ok(entries)).remote == m.remote,
        m.local_read(Err(error)).error matches Some(e) && begins(e, m.local.path) && ends(e, error),
        m.local_read(Err(error)).local == m.local,
        m.local_read(Err(error)).settled(previous, false).local.path == previous,
        m.settled(previous, true) == m,
        m.error is None ==> m.settled(previous, false) == m,
        m.failing(previous, error).error matches Some(e) && begins(e, previous) && ends(e, error),
        m.failing(previous, error).local == m.local,
{
    let a = m.local.path + " : "@ + error;
    assert(a.take(m.local.path.len() as int) =~= m.local.path);
    assert(a.skip(a.len() - error.len()) =~= error);
    let b = previous + " : "@ + error;
    assert(b.take(previous.len() as int) =~= previous);
    assert(b.skip(b.len() - error.len()) =~= error);
}

/// A panel is changed on its own side.
pub proof fn law_with_panel(m: FileManagerModel, p: PanelModel)
    ensures
        m.with_panel(Side::Local, p).local == p,
        m.with_panel(Side::Local, p).remote == m.remote,
        m.with_panel(Side::Remote, p).remote == p,
        m.with_panel(Side::Remote, p).local == m.local,
        m.with_panel(Side::Local, p).outbox == m.outbox,
{
}

} // verus!
