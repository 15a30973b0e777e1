//! What transfers are for: every file arrives whole, at its own place, as what it is.

use crate::paths::{bare_drive, below, separator};
use crate::sftp::{
    joined_path, law_parent_of_join, parent_path, plain_name, EntryModel, EventModel, RequestModel,
};
use crate::shortcut::Platform;
use crate::text::{
    begins, drop_front, ends, find, joined, lemma_find, lemma_find_is, lemma_split_joined,
    lemma_split_some, split,
};
use crate::transfer::{
    allowance, download_plan, download_size, download_step, finished_events, part_text, parts,
    plain_path, planned, relative_path, reply_to, sent, upload_size, Download, Existing, Local,
    OutcomeModel, PlannedModel, SentModel,
};
use crate::walk::{chmod_paths, removal_order, FoundModel};
use vstd::prelude::*;

verus! {

/// A folder and a name make a path that starts with the folder, ends with the name, and
/// has one "/" between them: the one that the folder ends with, or one more.
pub proof fn law_joined_path(dir: Seq<char>, name: Seq<char>)
    ensures
        begins(joined_path(dir, name), dir),
        ends(joined_path(dir, name), name),
        dir.len() > 0 && dir.last() == '/' ==> joined_path(dir, name).len() == dir.len()
            + name.len(),
        dir.len() == 0 || dir.last() != '/' ==> {
            &&& joined_path(dir, name).len() == dir.len() + 1 + name.len()
            &&& joined_path(dir, name)[dir.len() as int] == '/'
        },
{
    let p = joined_path(dir, name);
    assert(p.take(dir.len() as int) =~= dir);
    assert(p.skip(p.len() - name.len()) =~= name);
}

/// Two names in one folder are two paths.
pub proof fn law_joined_apart(dir: Seq<char>, a: Seq<char>, b: Seq<char>)
    requires
        joined_path(dir, a) == joined_path(dir, b),
    ensures
        a == b,
{
    law_joined_path(dir, a);
    law_joined_path(dir, b);
    let p = joined_path(dir, a);
    assert(a =~= p.skip(p.len() - a.len()));
}

/// A local folder and what is below it make a path that starts with the one and ends with
/// the other, with one separator of the system between them.
pub proof fn law_below(dir: Seq<char>, rest: Seq<char>, platform: Platform)
    ensures
        begins(below(dir, rest, platform), dir),
        ends(below(dir, rest, platform), rest),
        dir.len() == 0 || separator(dir.last(), platform) || bare_drive(dir, platform) ==> below(
            dir,
            rest,
            platform,
        ).len() == dir.len() + rest.len(),
        !(dir.len() == 0 || separator(dir.last(), platform) || bare_drive(dir, platform)) ==> {
            let p = below(dir, rest, platform);
            &&& p.len() == dir.len() + 1 + rest.len()
            &&& p[dir.len() as int] == if platform is Windows {
                '\\'
            } else {
                '/'
            }
        },
{
    let p = below(dir, rest, platform);
    assert(p.take(dir.len() as int) =~= dir);
    assert(p.skip(p.len() - rest.len()) =~= rest);
}

/// Two places below one folder are two paths.
pub proof fn law_below_apart(dir: Seq<char>, a: Seq<char>, b: Seq<char>, platform: Platform)
    requires
        below(dir, a, platform) == below(dir, b, platform),
    ensures
        a == b,
{
    law_below(dir, a, platform);
    law_below(dir, b, platform);
    let p = below(dir, a, platform);
    assert(a =~= p.skip(p.len() - a.len()));
}

/// What stands below the folder that holds a root is found again from its path.
proof fn lemma_relative(root: Seq<char>, rel: Seq<char>)
    requires
        rel.len() == 0 || rel[0] != '/',
    ensures
        relative_path(joined_path(parent_path(root), rel), root) == rel,
{
    let base = parent_path(root);
    let path = joined_path(base, rel);
    law_joined_path(base, rel);
    let rest = path.skip(base.len() as int);
    if base.len() > 0 && base.last() == '/' {
        assert(rest =~= rel);
    } else {
        assert(rest =~= seq!['/'] + rel);
        assert(rest.drop_first() =~= rel);
    }
    reveal_with_fuel(drop_front, 2);
}

proof fn lemma_planned(
    out: Seq<FoundModel>,
    root: Seq<char>,
    local_dir: Seq<char>,
    platform: Platform,
    i: int,
)
    requires
        download_plan(out, root, local_dir, platform) is Ok,
        0 <= i < out.len(),
    ensures
        download_plan(out, root, local_dir, platform)->Ok_0.len() == out.len(),
        download_plan(out, root, local_dir, platform)->Ok_0[i] == planned(
            out[i],
            root,
            local_dir,
            platform,
        ),
        plain_path(relative_path(out[i].path, root), platform),
    decreases out.len(),
{
    reveal_with_fuel(download_plan, 2);
    let rest = out.drop_last();
    if rest.len() > 0 {
        lemma_planned(
            rest,
            root,
            local_dir,
            platform,
            if i < rest.len() {
                i
            } else {
                0
            },
        );
    }
    if i < rest.len() {
        assert(rest[i] == out[i]);
    }
}

/// A download reads every path that the walk met, each as what it was met as, in the order
/// in which they were met: nothing is left out and nothing is read in the place of
/// something else.
pub proof fn law_download_reads_what_was_met(
    out: Seq<FoundModel>,
    root: Seq<char>,
    local_dir: Seq<char>,
    platform: Platform,
)
    requires
        download_plan(out, root, local_dir, platform) is Ok,
    ensures
        ({
            let plan = download_plan(out, root, local_dir, platform)->Ok_0;
            &&& plan.len() == out.len()
            &&& forall|i: int|
                0 <= i < out.len() ==> (#[trigger] plan[i]).remote == out[i].path && plan[i].attrs
                    == out[i].attrs
        }),
{
    let plan = download_plan(out, root, local_dir, platform)->Ok_0;
    if out.len() > 0 {
        lemma_planned(out, root, local_dir, platform, 0);
    }
    assert forall|i: int| 0 <= i < out.len() implies (#[trigger] plan[i]).remote == out[i].path
        && plan[i].attrs == out[i].attrs by {
        lemma_planned(out, root, local_dir, platform, i);
    }
}

/// What stands somewhere below the folder that holds the root is downloaded to the same
/// place below the chosen folder.
pub proof fn law_download_in_its_place(
    out: Seq<FoundModel>,
    root: Seq<char>,
    local_dir: Seq<char>,
    platform: Platform,
    i: int,
    rel: Seq<char>,
)
    requires
        download_plan(out, root, local_dir, platform) is Ok,
        0 <= i < out.len(),
        rel.len() == 0 || rel[0] != '/',
        out[i].path == joined_path(parent_path(root), rel),
    ensures
        download_plan(out, root, local_dir, platform)->Ok_0[i].local == below(
            local_dir,
            rel,
            platform,
        ),
{
    lemma_planned(out, root, local_dir, platform, i);
    lemma_relative(root, rel);
}

/// A chosen file or folder is downloaded under its own name.
pub proof fn law_download_keeps_the_name(
    out: Seq<FoundModel>,
    dir: Seq<char>,
    name: Seq<char>,
    local_dir: Seq<char>,
    platform: Platform,
    i: int,
)
    requires
        plain_name(name, platform),
        dir == seq!['/'] || (dir.len() > 0 && dir.last() != '/'),
        download_plan(out, joined_path(dir, name), local_dir, platform) is Ok,
        0 <= i < out.len(),
        out[i].path == joined_path(dir, name),
    ensures
        download_plan(out, joined_path(dir, name), local_dir, platform)->Ok_0[i].local == below(
            local_dir,
            name,
            platform,
        ),
{
    law_parent_of_join(dir, name, platform);
    assert(name[0] != '/');
    law_download_in_its_place(out, joined_path(dir, name), local_dir, platform, i, name);
}

/// A download mirrors the tree: what is in a folder on the server is in the copy of that
/// folder, under its own name.
pub proof fn law_download_mirrors(
    out: Seq<FoundModel>,
    root: Seq<char>,
    local_dir: Seq<char>,
    platform: Platform,
    i: int,
    j: int,
    rel: Seq<char>,
    name: Seq<char>,
)
    requires
        download_plan(out, root, local_dir, platform) is Ok,
        0 <= i < out.len(),
        0 <= j < out.len(),
        rel.len() > 0,
        rel[0] != '/',
        rel.last() != '/',
        out[i].path == joined_path(parent_path(root), rel),
        out[j].path == joined_path(out[i].path, name),
    ensures
        ({
            let plan = download_plan(out, root, local_dir, platform)->Ok_0;
            plan[j].local == plan[i].local + seq!['/'] + name
        }),
{
    let base = parent_path(root);
    let whole = rel + seq!['/'] + name;
    law_joined_path(base, rel);
    assert(out[i].path.last() == rel.last());
    assert(out[j].path =~= joined_path(base, whole));
    law_download_in_its_place(out, root, local_dir, platform, i, rel);
    law_download_in_its_place(out, root, local_dir, platform, j, whole);
    assert(below(local_dir, whole, platform) =~= below(local_dir, rel, platform) + seq!['/']
        + name);
}

/// No two files of a download are written to the same place.
pub proof fn law_download_apart(
    out: Seq<FoundModel>,
    root: Seq<char>,
    local_dir: Seq<char>,
    platform: Platform,
    i: int,
    j: int,
    a: Seq<char>,
    b: Seq<char>,
)
    requires
        download_plan(out, root, local_dir, platform) is Ok,
        0 <= i < out.len(),
        0 <= j < out.len(),
        a.len() == 0 || a[0] != '/',
        b.len() == 0 || b[0] != '/',
        out[i].path == joined_path(parent_path(root), a),
        out[j].path == joined_path(parent_path(root), b),
        out[i].path != out[j].path,
    ensures
        ({
            let plan = download_plan(out, root, local_dir, platform)->Ok_0;
            plan[i].local != plan[j].local && plan[i].remote != plan[j].remote
        }),
{
    lemma_planned(out, root, local_dir, platform, i);
    lemma_planned(out, root, local_dir, platform, j);
    lemma_relative(root, a);
    lemma_relative(root, b);
    if below(local_dir, a, platform) == below(local_dir, b, platform) {
        law_below_apart(local_dir, a, b, platform);
    }
}

/// A download is refused exactly where some path would leave the chosen folder, and the
/// first such path is the one that is named.
pub proof fn law_download_refused(
    out: Seq<FoundModel>,
    root: Seq<char>,
    local_dir: Seq<char>,
    platform: Platform,
)
    ensures
        download_plan(out, root, local_dir, platform) is Ok <==> forall|i: int|
            0 <= i < out.len() ==> plain_path(
                relative_path((#[trigger] out[i]).path, root),
                platform,
            ),
        download_plan(out, root, local_dir, platform) matches Err(e) ==> exists|i: int|
            0 <= i < out.len() && e == relative_path((#[trigger] out[i]).path, root)
                && !plain_path(e, platform),
    decreases out.len(),
{
    if out.len() > 0 {
        let rest = out.drop_last();
        law_download_refused(rest, root, local_dir, platform);
        assert forall|i: int| 0 <= i < rest.len() implies rest[i] == out[i] by {}
        if download_plan(rest, root, local_dir, platform) is Ok {
            assert(forall|i: int| 0 <= i < rest.len() ==> plain_path(
                relative_path((#[trigger] out[i]).path, root),
                platform,
            )) by {
                assert forall|i: int| 0 <= i < rest.len() implies plain_path(
                    relative_path((#[trigger] out[i]).path, root),
                    platform,
                ) by {
                    assert(rest[i] == out[i]);
                }
            }
            assert(out[out.len() - 1] == out.last());
        } else {
            let e = download_plan(rest, root, local_dir, platform)->Err_0;
            let i = choose|i: int|
                0 <= i < rest.len() && e == relative_path((#[trigger] rest[i]).path, root)
                    && !plain_path(e, platform);
            assert(out[i] == rest[i]);
        }
    }
}

/// What a download weighs is the sum of its parts; a folder weighs nothing, a file what the
/// server announced.
pub proof fn law_download_size(a: Seq<PlannedModel>, b: Seq<PlannedModel>, p: PlannedModel)
    ensures
        download_size(a + b) == download_size(a) + download_size(b),
        p.attrs.dir ==> download_size(seq![p]) == 0,
        !p.attrs.dir && p.attrs.size is Some ==> download_size(seq![p]) == p.attrs.size->0,
        !p.attrs.dir && p.attrs.size is None ==> download_size(seq![p]) == 0,
    decreases b.len(),
{
    reveal_with_fuel(download_size, 2);
    assert(seq![p].drop_last() =~= Seq::<PlannedModel>::empty());
    if b.len() == 0 {
        assert(a + b =~= a);
    } else {
        assert((a + b).drop_last() =~= a + b.drop_last());
        law_download_size(a, b.drop_last(), p);
    }
}

/// What an upload weighs is the sum of its parts.
pub proof fn law_upload_size(a: Seq<SentModel>, b: Seq<SentModel>, s: SentModel)
    ensures
        upload_size(a + b) == upload_size(a) + upload_size(b),
        upload_size(seq![s]) == s.size,
    decreases b.len(),
{
    reveal_with_fuel(upload_size, 2);
    assert(seq![s].drop_last() =~= Seq::<SentModel>::empty());
    if b.len() == 0 {
        assert(a + b =~= a);
    } else {
        assert((a + b).drop_last() =~= a + b.drop_last());
        law_upload_size(a, b.drop_last(), s);
    }
}

/// A folder is made, whatever stands there; a file is copied where nothing stands, or where
/// replacing it was asked for, and skipped where it exists and was to be kept. A link is
/// neither read nor written through.
pub proof fn law_download_decides(existing: Existing, overwrite: bool, link: bool)
    ensures
        download_step(true, link, existing, overwrite) == Download::MakeFolder,
        download_step(false, true, existing, overwrite) == Download::LeaveLink,
        download_step(false, false, Existing::Nothing, overwrite) == Download::Copy,
        download_step(false, false, Existing::Other, true) == Download::Copy,
        download_step(false, false, Existing::Other, false) == Download::Skip,
        download_step(false, false, Existing::Link, overwrite) == Download::RefuseLink,
{
}

/// A file is written aside under a hidden name of its own, which tells its name.
pub proof fn law_part_name(a: Seq<char>, b: Seq<char>)
    ensures
        part_text(a)[0] == '.',
        part_text(a) != a,
        part_text(a) == part_text(b) ==> a == b,
        begins(part_text(a).skip(1), a),
        ends(part_text(a), ".ronnie-part"@),
{
    let end = ".ronnie-part"@;
    reveal_strlit(".ronnie-part");
    assert(part_text(a).skip(1).take(a.len() as int) =~= a);
    assert(part_text(a).skip(part_text(a).len() - end.len()) =~= end);
    if part_text(a) == part_text(b) {
        assert(part_text(a).len() == a.len() + 13);
        assert(part_text(b).len() == b.len() + 13);
        assert(b =~= part_text(b).skip(1).take(b.len() as int));
    }
}

/// A server may always send what it announced, a megabyte more, and no more than that
/// where it announced a size.
pub proof fn law_allowance(n: u64)
    ensures
        allowance(Some(n)) >= n,
        n <= 0xffff_ffff_ffef_ffff ==> allowance(Some(n)) == n + 1024 * 1024,
        allowance(None) == u64::MAX,
        allowance(Some(n)) <= u64::MAX,
{
}

/// An upload sends a file as a file of its size and a folder as a folder, from where it is;
/// nothing else is sent.
pub proof fn law_upload_sends(
    path: Seq<char>,
    remote_dir: Seq<char>,
    parts: Seq<Seq<char>>,
    size: u64,
)
    ensures
        sent(path, Local::File { size }, remote_dir, parts) matches Some(s) && s.local == path
            && !s.dir && s.size == size,
        sent(path, Local::Folder, remote_dir, parts) matches Some(s) && s.local == path && s.dir
            && s.size == 0,
        sent(path, Local::Other, remote_dir, parts) is None,
{
}

/// A chosen file or folder is uploaded under its own name, into the chosen folder.
pub proof fn law_upload_keeps_the_name(
    path: Seq<char>,
    kind: Local,
    remote_dir: Seq<char>,
    name: Seq<char>,
)
    requires
        !(kind is Other),
    ensures
        sent(path, kind, remote_dir, seq![name]) matches Some(s) && s.remote == joined_path(
            remote_dir,
            name,
        ),
{
    assert(joined(seq![name], "/"@) == name);
}

/// An upload mirrors the tree: what is in a folder goes into the copy of that folder, under
/// its own name.
pub proof fn law_upload_mirrors(
    path: Seq<char>,
    inside: Seq<char>,
    kind: Local,
    remote_dir: Seq<char>,
    parts: Seq<Seq<char>>,
    name: Seq<char>,
)
    requires
        !(kind is Other),
        parts.len() > 0,
        joined(parts, "/"@).len() > 0,
        joined(parts, "/"@).last() != '/',
    ensures
        sent(inside, kind, remote_dir, parts.push(name)) matches Some(s) && s.remote
            == joined_path(sent(path, Local::Folder, remote_dir, parts)->0.remote, name),
{
    let p = joined(parts, "/"@);
    assert(parts.push(name).drop_last() =~= parts);
    assert(joined(parts.push(name), "/"@) == p + "/"@ + name);
    lemma_deeper(remote_dir, p, name);
    assert(sent(path, Local::Folder, remote_dir, parts)->0.remote == joined_path(remote_dir, p));
}

proof fn lemma_deeper(dir: Seq<char>, p: Seq<char>, name: Seq<char>)
    requires
        p.len() > 0,
        p.last() != '/',
    ensures
        joined_path(dir, p + "/"@ + name) == joined_path(joined_path(dir, p), name),
{
    reveal_strlit("/");
    assert("/"@ =~= seq!['/']);
    law_joined_path(dir, p);
    let folder = joined_path(dir, p);
    assert(folder.last() == p.last());
    assert(joined_path(dir, p + seq!['/'] + name) =~= joined_path(folder, name));
}

/// The parts of a path are what stands between its separators.
proof fn lemma_parts(s: Seq<char>, platform: Platform)
    requires
        !(platform is Windows),
    ensures
        parts(s, platform) == split(s, '/'),
    decreases s.len(),
{
    if s.len() == 0 {
        assert(split(s, '/') =~= seq![s]);
    } else {
        let t = s.drop_last();
        let c = s.last();
        lemma_parts(t, platform);
        lemma_split_last(t, c);
        assert(t.push(c) =~= s);
    }
}

proof fn lemma_split_last(t: Seq<char>, c: char)
    ensures
        split(t, '/').len() > 0,
        split(t.push(c), '/') == if c == '/' {
            split(t, '/').push(Seq::empty())
        } else {
            split(t, '/').drop_last().push(split(t, '/').last().push(c))
        },
    decreases t.len(),
{
    let s = t.push(c);
    lemma_find(t, '/');
    lemma_find(s, '/');
    let n = find(t, '/');
    if n < t.len() {
        lemma_find_is(s, '/', n);
        let rest = t.skip(n + 1);
        lemma_split_last(rest, c);
        assert(s.skip(n + 1) =~= rest.push(c));
        assert(s.take(n) =~= t.take(n));
        assert(split(s, '/') =~= seq![t.take(n)] + split(rest.push(c), '/'));
        let all = split(t, '/');
        assert(all =~= seq![t.take(n)] + split(rest, '/'));
        assert(all.last() == split(rest, '/').last());
        assert(split(s, '/') =~= if c == '/' {
            all.push(Seq::empty())
        } else {
            all.drop_last().push(all.last().push(c))
        });
    } else {
        assert(split(t, '/') =~= seq![t]);
        if c == '/' {
            lemma_find_is(s, '/', t.len() as int);
            assert(s.take(t.len() as int) =~= t);
            assert(s.skip(t.len() as int + 1) =~= Seq::<char>::empty());
            assert(split(Seq::<char>::empty(), '/') =~= seq![Seq::<char>::empty()]);
            assert(split(s, '/') =~= seq![t].push(Seq::empty()));
        } else {
            lemma_find_is(s, '/', s.len() as int);
            assert(split(s, '/') =~= seq![s]);
            assert(seq![t].drop_last().push(seq![t].last().push(c)) =~= seq![s]);
        }
    }
}

/// A path made of names only goes down where it starts with a name that is not "." and none
/// of the names is "..": anything else would be written outside the chosen folder.
pub proof fn law_only_down(names: Seq<Seq<char>>, platform: Platform)
    requires
        !(platform is Windows),
        names.len() > 0,
        forall|i: int| 0 <= i < names.len() ==> !(#[trigger] names[i]).contains('/'),
    ensures
        plain_path(joined(names, seq!['/']), platform) <==> {
            &&& names.len() == 1 || names[0].len() > 0
            &&& names[0] != "."@
            &&& forall|i: int| 0 <= i < names.len() ==> #[trigger] names[i] != ".."@
        },
{
    let s = joined(names, seq!['/']);
    lemma_parts(s, platform);
    lemma_split_joined(names, '/');
    lemma_find(s, '/');
    let n = find(s, '/');
    assert(split(s, '/') == names);
    if n < s.len() {
        assert(names[0] == s.take(n));
        lemma_split_some(s.skip(n + 1), '/');
        assert(names.len() > 1);
    } else {
        assert(split(s, '/') =~= seq![s]);
        if s.len() > 0 {
            assert(s[0] != '/');
        }
    }
}

/// Every path of a walk is deleted once, as what it is: as a folder exactly where the walk
/// met a folder; the last one met goes first and the root last.
pub proof fn law_removed_as_what_it_is(out: Seq<FoundModel>)
    ensures
        removal_order(out).len() == out.len(),
        forall|i: int|
            0 <= i < out.len() ==> {
                let r = removal_order(out)[out.len() - 1 - i];
                r.0 == (#[trigger] out[i]).path && r.1 == out[i].attrs.dir
            },
        out.len() > 0 ==> removal_order(out).last().0 == out[0].path,
{
}

/// The permissions of a path change exactly where the walk met it as something else than a
/// link.
pub proof fn law_chmod_all_but_links(out: Seq<FoundModel>, path: Seq<char>)
    ensures
        chmod_paths(out).contains(path) <==> exists|i: int|
            0 <= i < out.len() && (#[trigger] out[i]).path == path && !out[i].attrs.link,
        chmod_paths(out).len() <= out.len(),
        (forall|i: int| 0 <= i < out.len() ==> !(#[trigger] out[i]).attrs.link) ==> chmod_paths(
            out,
        ) == out.map_values(|f: FoundModel| f.path),
    decreases out.len(),
{
    if out.len() > 0 {
        let rest = out.drop_last();
        let (some, all) = (chmod_paths(rest), chmod_paths(out));
        law_chmod_all_but_links(rest, path);
        if some.contains(path) {
            let i = choose|i: int|
                0 <= i < rest.len() && (#[trigger] rest[i]).path == path && !rest[i].attrs.link;
            assert(out[i] == rest[i]);
            let k = choose|k: int| 0 <= k < some.len() && some[k] == path;
            assert(all[k] == path);
        }
        if !out.last().attrs.link {
            assert(all[some.len() as int] == out.last().path);
        }
        if exists|i: int|
            0 <= i < out.len() && (#[trigger] out[i]).path == path && !out[i].attrs.link {
            let i = choose|i: int|
                0 <= i < out.len() && (#[trigger] out[i]).path == path && !out[i].attrs.link;
            if i < rest.len() {
                assert(rest[i] == out[i]);
            }
        }
        if all.contains(path) && !some.contains(path) {
            let k = choose|k: int| 0 <= k < all.len() && all[k] == path;
            if !out.last().attrs.link {
                assert(k == some.len() as int || all[k] == some[k]);
                assert(out[out.len() - 1] == out.last());
            }
        }
        if forall|i: int| 0 <= i < out.len() ==> !(#[trigger] out[i]).attrs.link {
            assert forall|i: int| 0 <= i < rest.len() implies !(#[trigger] rest[i]).attrs.link by {
                assert(rest[i] == out[i]);
            }
            assert(!out[out.len() - 1].attrs.link);
            assert(all =~= out.map_values(|f: FoundModel| f.path));
        }
    } else {
        assert(chmod_paths(out) =~= out.map_values(|f: FoundModel| f.path));
    }
}

/// A transfer that is over tells so once, with its own id and result; listings are
/// refreshed after the last one of the queue only.
pub proof fn law_finished(id: u64, result: Result<u64, Seq<char>>)
    ensures
        finished_events(id, result, false).len() == 1,
        finished_events(id, result, true).len() == 2,
        forall|empty: bool| #[trigger]
            finished_events(id, result, empty)[0] == (EventModel::Finished { id, result }),
        finished_events(id, result, true)[1] is Changed,
{
}

/// A request is answered by what came of it: a listing by what the folder holds, a change by
/// the news of it, and a failure by its error. Transfers answer later.
pub proof fn law_replies(
    path: Seq<char>,
    to: Seq<char>,
    paths: Seq<Seq<char>>,
    mode: u32,
    recursive: bool,
    entries: Seq<EntryModel>,
    error: Seq<char>,
)
    ensures
        reply_to(RequestModel::List(path), OutcomeModel::Entries(entries)) == Some(
            EventModel::Listing { path, entries },
        ),
        reply_to(RequestModel::List(path), OutcomeModel::Failed(error)) == Some(
            EventModel::ListFailed { path, error },
        ),
        forall|r: RequestModel|
            r is Mkdir || r is Rename || r is Remove || r is Chmod ==> {
                &&& #[trigger] reply_to(r, OutcomeModel::Done) == Some(EventModel::Changed)
                &&& reply_to(r, OutcomeModel::Failed(error)) == Some(EventModel::Error(error))
            },
        forall|r: RequestModel, o: OutcomeModel|
            r is Download || r is Upload ==> #[trigger] reply_to(r, o) is None,
{
}

} // verus!
