//! What the dialogs of hosts, profiles and settings take, refuse and store.

use crate::app::AppModel;
use crate::arrange::host_ids;
use crate::color::Color;
use crate::config::{ConfigModel, ProfileModel, SettingsModel, SshAuth, SshHostModel};
use crate::copies::{candidate, free_name, is_copy_name, law_free_name};
use crate::editor::{
    group_sections, kind_ids, names_in, put_after, sections, tidy, typed, with_copy,
    ProfileEditorModel,
};
use crate::fields::{takes_key, KeyChoice};
use crate::find::{has_host, has_profile, host_place, profile_place};
use crate::hosts::{
    folders_kept, host_copy, host_put, host_stored, keeps_password, keychain_of, keyed, known_host,
    other_host, password_checked, tidied, unknown_to, with_new_hosts, with_password,
    HostEditorModel, KeychainModel,
};
use crate::ids::lemma_place;
use crate::settings::{imported_ids, ConfigEditorModel};
use crate::sidebar::{group_of, is_kind, list_of};
use crate::strings::Strings;
use crate::text::{begins, digits_value, law_decimal_read_back, number, trimmed};
use crate::window_laws::{law_host_found, law_profile_found};
use vstd::prelude::*;

verus! {

/// The dialog of a host shows the host; nothing of it is changed until something is typed.
pub proof fn law_host_dialog_opens(
    draft: SshHostModel,
    is_new: bool,
    group: Option<u128>,
    keys: Seq<Seq<char>>,
    shown: Seq<char>,
)
    ensures
        ({
            let e = HostEditorModel::opened(draft, is_new, group, keys, shown);
            &&& e.draft == draft && e.group == group && e.is_new == is_new
            &&& !e.password_changed && e.password.len() == 0 && !e.reveal && e.error is None
            &&& keychain_of(e) is Keep
            &&& draft.port is None ==> e.port.len() == 0
            &&& draft.port matches Some(p) ==> digits_value(e.port, 10) == Some(p as nat)
            &&& e.key_choice() is Other ==> e.custom_key == shown
        }),
{
    if let Some(p) = draft.port {
        law_decimal_read_back(p as nat);
    }
}

/// A port is a number from one on that fits; nothing typed is no port.
pub proof fn law_port(e: HostEditorModel, t: Strings)
    ensures
        trimmed(e.port).len() == 0 ==> tidied(e).port is None,
        e.refusal(t) is None && trimmed(e.port).len() > 0 ==> (tidied(e).port matches Some(p) && 0
            < p && number(trimmed(e.port), 10, 0xffff) == Some(p as nat)),
        trimmed(e.draft.host).len() > 0 && trimmed(e.port).len() > 0 && number(
            trimmed(e.port),
            10,
            0xffff,
        ) is None ==> e.refusal(t) is Some,
        trimmed(e.port).len() > 0 && number(trimmed(e.port), 10, 0xffff) == Some(0nat) ==> e.refusal(
            t,
        ) is Some,
{
    crate::text_laws::law_number_bounded(trimmed(e.port), 10, 0xffff);
}

/// A host needs an address; none that starts with a dash is taken, since ssh would read it as
/// an option.
pub proof fn law_host_refused(e: HostEditorModel, t: Strings)
    ensures
        trimmed(e.draft.host).len() == 0 ==> e.refusal(t) == Some(t.host_required@),
        trimmed(e.draft.host).len() > 0 && trimmed(e.draft.host)[0] == '-' ==> e.refusal(t) == Some(
            t.invalid_dash@,
        ),
        trimmed(e.draft.host).len() > 0 && e.draft.user is Some && e.draft.user->0.len() > 0
            && e.draft.user->0[0] == '-' ==> e.refusal(t) == Some(t.invalid_dash@),
        trimmed(e.draft.host).len() > 0 && e.draft.jump is Some && e.draft.jump->0.len() > 0
            && e.draft.jump->0[0] == '-' ==> e.refusal(t) == Some(t.invalid_dash@),
        trimmed(e.draft.host).len() > 0 && trimmed(e.draft.host)[0] != '-' && e.draft.user is None
            && e.draft.jump is None && e.port.len() == 0 ==> e.refusal(t) is None,
{
    crate::text_laws::law_trimmed(e.draft.host);
    crate::text_laws::law_trimmed(e.port);
    let h = trimmed(e.draft.host);
    if h.len() > 0 {
        assert(!crate::text::space(h[0]));
        assert(crate::text::drop_front(h, crate::text::Class::Space) == h);
    }
    assert(!crate::text::space('-'));
}

/// What is stored is the address that was typed, and the name, or the address where no name
/// was typed; the rest of the host is as it was chosen.
pub proof fn law_host_tidied(e: HostEditorModel)
    ensures
        tidied(e).host == trimmed(e.draft.host),
        trimmed(e.draft.name).len() > 0 ==> tidied(e).name == trimmed(e.draft.name),
        trimmed(e.draft.name).len() == 0 ==> tidied(e).name == trimmed(e.draft.host),
        tidied(e).id == e.draft.id,
        tidied(e).user == e.draft.user,
        tidied(e).jump == e.draft.jump,
        tidied(e).auth == e.draft.auth,
        tidied(e).color == e.draft.color,
        tidied(e).commands == e.draft.commands,
        tidied(e).password_saved == e.draft.password_saved,
        e.draft.identity_file matches Some(k) ==> k.len() > 0 ==> tidied(e).identity_file == Some(k),
{
}

/// To log in with a key takes a key, with a password takes one; what is not needed is not
/// kept.
pub proof fn law_login(e: HostEditorModel, host: SshHostModel, auth: SshAuth, t: Strings)
    ensures
        auth is Key && host.identity_file is None ==> e.login_refusal(host, auth, t) == Some(
            t.key_required@,
        ),
        auth is Key && host.identity_file is Some ==> e.login_refusal(host, auth, t) is None && keyed(
            host,
            auth,
        ).identity_file == host.identity_file,
        !(auth is Key) ==> keyed(host, auth).identity_file is None,
        auth is Password && e.password.len() == 0 && !host.password_saved ==> e.login_refusal(
            host,
            auth,
            t,
        ) == Some(t.password_required@),
        auth is Password && e.password.len() > 0 ==> e.login_refusal(host, auth, t) is None,
        auth is Password && host.password_saved && !e.password_changed ==> e.login_refusal(
            host,
            auth,
            t,
        ) is None,
        !(auth is Key) && !(auth is Password) ==> e.login_refusal(host, auth, t) is None,
        keyed(host, auth).host == host.host && keyed(host, auth).name == host.name && keyed(
            host,
            auth,
        ).id == host.id,
{
}

/// A password that was typed is saved, one that was emptied is forgotten, and one that was
/// not touched is kept; a way to log in that takes none forgets it.
pub proof fn law_password_kept(e: HostEditorModel, host: SshHostModel, auth: SshAuth)
    ensures
        !e.password_changed ==> keychain_of(e) is Keep,
        e.password_changed && e.password.len() == 0 ==> keychain_of(e) is Delete,
        e.password_changed && e.password.len() > 0 ==> keychain_of(e) == KeychainModel::Save(
            e.password,
        ),
        (auth is Password || auth is Key) ==> password_checked(e, host, auth) == e,
        !(auth is Password || auth is Key) && host.password_saved ==> keychain_of(
            password_checked(e, host, auth),
        ) is Delete,
        with_password(host, KeychainModel::Keep) == host,
        !with_password(host, KeychainModel::Delete).password_saved,
        with_password(host, KeychainModel::Save(e.password)).password_saved,
        with_password(host, keychain_of(e)).name == host.name,
        keeps_password(auth) == (auth is Password || auth is Key),
        takes_key(auth) == (auth is Key),
{
}

/// The password is shown and hidden in turn; the saved one is read for that only where
/// nothing was typed.
pub proof fn law_password_shown(e: HostEditorModel, saved: Seq<char>)
    ensures
        e.revealed().revealed() == e,
        e.revealed().reveal != e.reveal,
        e.revealed().password == e.password,
        e.reveal ==> !e.loads_password(),
        e.password_changed ==> !e.loads_password(),
        !e.reveal && !e.password_changed && e.password.len() == 0 ==> e.loads_password()
            == e.draft.password_saved,
        e.with_shown_password(Some(saved)).password == saved,
        e.with_shown_password(Some(saved)).password_changed == e.password_changed,
        e.with_shown_password(None).password.len() == 0,
        e.with_typed_password(saved).password == saved,
        e.with_typed_password(saved).password_changed,
        keychain_of(e.with_typed_password(Seq::empty())) is Delete,
{
}

/// What is typed or chosen in a field is that of the host, without the spaces around it, and
/// changes no other field.
pub proof fn law_fields(
    e: HostEditorModel,
    text: Seq<char>,
    auth: SshAuth,
    color: Color,
    error: Seq<char>,
)
    ensures
        trimmed(text).len() > 0 ==> e.with_user(text).draft.user == Some(trimmed(text)),
        trimmed(text).len() == 0 ==> e.with_user(text).draft.user is None,
        e.with_user(text).draft.host == e.draft.host && e.with_user(text).draft.jump == e.draft.jump,
        trimmed(text).len() > 0 ==> e.with_jump(text).draft.jump == Some(trimmed(text)),
        trimmed(text).len() == 0 ==> e.with_jump(text).draft.jump is None,
        e.with_jump(text).draft.user == e.draft.user && e.with_jump(text).draft.host == e.draft.host,
        e.with_auth(auth).draft.auth == Some(auth),
        e.with_auth(auth).draft.host == e.draft.host,
        e.with_typed_key(text).draft.identity_file == Some(trimmed(text)),
        e.with_typed_key(text).custom_key == text,
        e.with_key(text).draft.identity_file == Some(text),
        e.with_key(text).draft.host == e.draft.host,
        e.draft.color != Some(color) ==> e.with_color_toggled(color).draft.color == Some(color),
        e.draft.color == Some(color) ==> e.with_color_toggled(color).draft.color is None,
        e.with_error(error).error == Some(error),
        e.with_error(error).draft == e.draft,
        e.draft.identity_file is None ==> e.key_choice() == KeyChoice::Nothing,
        e.draft.identity_file matches Some(k) ==> (e.key_choice() == KeyChoice::Known)
            == e.keys.contains(k),
{
}

/// A host that is stored takes the place of the one with its id, or comes last; no other host
/// changes.
pub proof fn law_host_put(ssh: Seq<SshHostModel>, host: SshHostModel, i: int)
    ensures
        has_host(host_put(ssh, host), host.id),
        host_put(ssh, host)[host_place(host_put(ssh, host), host.id)] == host,
        has_host(ssh, host.id) ==> host_put(ssh, host).len() == ssh.len(),
        !has_host(ssh, host.id) ==> host_put(ssh, host).len() == ssh.len() + 1 && host_put(
            ssh,
            host,
        ).last() == host,
        0 <= i < ssh.len() && ssh[i].id != host.id ==> host_put(ssh, host)[i] == ssh[i],
{
    lemma_place(host_ids(ssh), host.id);
    let p = host_place(ssh, host.id);
    let r = host_put(ssh, host);
    if p < ssh.len() {
        assert(host_ids(ssh)[p] == ssh[p].id);
        assert(host_ids(r) =~= host_ids(ssh));
    } else {
        assert(host_ids(r) =~= host_ids(ssh).push(host.id));
        assert(host_ids(r)[ssh.len() as int] == host.id);
        lemma_place(host_ids(r), host.id);
        law_host_found(r, host.id, ssh.len() as int);
        let q = host_place(r, host.id);
        if q < ssh.len() {
            assert(host_ids(r)[q] == host_ids(ssh)[q]);
            assert(host_ids(ssh)[q] == host.id);
        }
    }
}

/// Storing a host changes the hosts and where it stands, and nothing else.
pub proof fn law_host_stored(c: ConfigModel, host: SshHostModel, group: Option<u128>)
    ensures
        host_stored(c, host, group).ssh == host_put(c.ssh, host),
        host_stored(c, host, group).profiles == c.profiles,
        host_stored(c, host, group).settings == c.settings,
        host_stored(c, host, group).groups.len() == c.groups.len(),
{
    if let Some(g) = group {
        crate::sidebar_laws::law_group_found(
            crate::arrange::unplaced(c, host.id).groups,
            g,
            0,
        );
    }
}

/// A host that is deleted is gone; its tabs stay open as plain tabs, and no other tab or host
/// changes.
pub proof fn law_host_deleted(m: AppModel, id: u128, h: SshHostModel, i: int)
    ensures
        m.without_host(id).config.ssh.contains(h) <==> m.config.ssh.contains(h) && h.id != id,
        m.without_host(id).tabs.len() == m.tabs.len(),
        m.without_host(id).config.profiles == m.config.profiles,
        0 <= i < m.tabs.len() && m.tabs[i].ssh == Some(id) ==> m.without_host(id).tabs[i].ssh is None
            && m.without_host(id).tabs[i].layout == m.tabs[i].layout && m.without_host(
            id,
        ).tabs[i].name == m.tabs[i].name,
        0 <= i < m.tabs.len() && m.tabs[i].ssh != Some(id) ==> m.without_host(id).tabs[i]
            == m.tabs[i],
{
    lemma_filtered(m.config.ssh, other_host(id), h);
}

proof fn lemma_filtered(s: Seq<SshHostModel>, f: spec_fn(SshHostModel) -> bool, h: SshHostModel)
    ensures
        s.filter(f).contains(h) <==> s.contains(h) && f(h),
{
    broadcast use vstd::seq_lib::group_filter_ensures;

    if s.filter(f).contains(h) {
        s.lemma_filter_contains_rev(f, h);
        let k = choose|k: int| 0 <= k < s.filter(f).len() && s.filter(f)[k] == h;
        assert(f(s.filter(f)[k]));
    }
    if s.contains(h) && f(h) {
        let k = choose|k: int| 0 <= k < s.len() && s[k] == h;
        assert(f(s[k]));
    }
}

/// The hosts that are imported are those that were not known, under their name at their
/// address; the known ones stay as they are, in front.
pub proof fn law_imported(c: ConfigModel, found: Seq<SshHostModel>, h: SshHostModel, i: int)
    ensures
        with_new_hosts(c, found).ssh.len() >= c.ssh.len(),
        0 <= i < c.ssh.len() ==> with_new_hosts(c, found).ssh[i] == c.ssh[i],
        c.ssh.len() <= i < with_new_hosts(c, found).ssh.len() ==> found.contains(
            with_new_hosts(c, found).ssh[i],
        ),
        found.contains(h) && (forall|k: int|
            0 <= k < c.ssh.len() ==> (#[trigger] c.ssh[k]).name != h.name || c.ssh[k].host
                != h.host) ==> with_new_hosts(c, found).ssh.contains(h),
        0 <= i < c.ssh.len() && c.ssh[i].name == h.name && c.ssh[i].host == h.host
            ==> known_host(c.ssh, h),
        with_new_hosts(c, found).profiles == c.profiles,
{
    let f = unknown_to(c.ssh);
    let new = found.filter(f);
    let all = c.ssh + new;
    lemma_filtered(found, f, h);
    if new.contains(h) {
        let k = choose|k: int| 0 <= k < new.len() && new[k] == h;
        assert(all[c.ssh.len() + k] == h);
    }
    if c.ssh.len() <= i < all.len() {
        assert(all[i] == new[i - c.ssh.len()]);
        assert(new.contains(all[i]));
        lemma_filtered(found, f, all[i]);
    }
}

/// Importing the same hosts again adds none.
pub proof fn law_imported_once(c: ConfigModel, found: Seq<SshHostModel>)
    ensures
        with_new_hosts(with_new_hosts(c, found), found).ssh == with_new_hosts(c, found).ssh,
{
    let once = with_new_hosts(c, found);
    let f = unknown_to(once.ssh);
    let again = found.filter(f);
    if again.len() > 0 {
        let h = again[0];
        assert(again.contains(h));
        lemma_filtered(found, f, h);
        lemma_filtered(found, unknown_to(c.ssh), h);
        if known_host(c.ssh, h) {
            let k = choose|k: int|
                0 <= k < c.ssh.len() && (#[trigger] c.ssh[k]).name == h.name && c.ssh[k].host
                    == h.host;
            assert(once.ssh[k] == c.ssh[k]);
        } else {
            let new = found.filter(unknown_to(c.ssh));
            let k = choose|k: int| 0 <= k < new.len() && new[k] == h;
            assert(once.ssh[c.ssh.len() + k] == h);
        }
        assert(known_host(once.ssh, h));
    }
    assert(once.ssh + again =~= once.ssh);
}

proof fn lemma_imported_ids(ssh: Seq<SshHostModel>, id: u128)
    ensures
        imported_ids(ssh).contains(id) <==> exists|i: int|
            0 <= i < ssh.len() && (#[trigger] ssh[i]).id == id && ssh[i].imported,
    decreases ssh.len(),
{
    if ssh.len() > 0 {
        let rest = ssh.drop_last();
        lemma_imported_ids(rest, id);
        let p = imported_ids(rest);
        crate::arrange::lemma_contains_push(p, ssh.last().id);
        if exists|i: int| 0 <= i < rest.len() && (#[trigger] rest[i]).id == id && rest[i].imported {
            let i = choose|i: int|
                0 <= i < rest.len() && (#[trigger] rest[i]).id == id && rest[i].imported;
            assert(ssh[i].id == id && ssh[i].imported);
        }
        if exists|i: int| 0 <= i < ssh.len() && (#[trigger] ssh[i]).id == id && ssh[i].imported {
            let i = choose|i: int|
                0 <= i < ssh.len() && (#[trigger] ssh[i]).id == id && ssh[i].imported;
            if i < rest.len() {
                assert(rest[i].id == id && rest[i].imported);
            }
        }
        assert(ssh[ssh.len() - 1] == ssh.last());
    }
}

proof fn lemma_without_hosts(m: AppModel, ids: Seq<u128>, h: SshHostModel)
    ensures
        m.without_hosts(ids).config.ssh.contains(h) <==> m.config.ssh.contains(h)
            && !ids.contains(h.id),
    decreases ids.len(),
{
    if ids.len() > 0 {
        let rest = ids.drop_last();
        lemma_without_hosts(m, rest, h);
        law_host_deleted(m.without_hosts(rest), ids.last(), h, 0);
        assert(ids =~= rest.push(ids.last()));
        crate::arrange::lemma_contains_push(rest, ids.last());
    }
}

/// Deleting the imported hosts deletes those and leaves the ones that were made here.
pub proof fn law_imported_deleted(m: AppModel, h: SshHostModel)
    requires
        m.config.ssh.contains(h),
        forall|i: int|
            0 <= i < m.config.ssh.len() && (#[trigger] m.config.ssh[i]).id == h.id ==> m.config.ssh[i]
                == h,
    ensures
        m.without_hosts(imported_ids(m.config.ssh)).config.ssh.contains(h) == !h.imported,
{
    lemma_imported_ids(m.config.ssh, h.id);
    lemma_without_hosts(m, imported_ids(m.config.ssh), h);
    let k = choose|k: int| 0 <= k < m.config.ssh.len() && m.config.ssh[k] == h;
    assert(m.config.ssh[k].id == h.id);
}

/// The name of a copy starts with that of the original, and no other has it.
pub proof fn law_copy_name(
    name: Seq<char>,
    suffix: Seq<char>,
    names: Seq<Seq<char>>,
    r: Seq<char>,
)
    requires
        is_copy_name(name, suffix, names, r),
    ensures
        begins(r, name),
        r.len() > name.len(),
        !names.contains(r),
        !names.contains(name + " ("@ + suffix + ")"@) ==> r == name + " ("@ + suffix + ")"@,
{
    reveal_strlit(" (");
    reveal_strlit(")");
    let n = choose|n: nat|
        1 <= n && r == #[trigger] candidate(name, suffix, n) && !names.contains(r) && forall|j: nat|
            1 <= j < n ==> names.contains(#[trigger] candidate(name, suffix, j));
    assert(r == candidate(name, suffix, n));
    assert(r.take(name.len() as int) =~= name);
    let first = candidate(name, suffix, 1);
    assert(first =~= name + " ("@ + suffix + ")"@);
    if n > 1 {
        assert(names.contains(candidate(name, suffix, 1)));
    }
}

/// A copy of a host connects as the host does; it has an id of its own, and its password is
/// not saved.
pub proof fn law_host_copied(ssh: Seq<SshHostModel>, h: SshHostModel, new: u128, suffix: Seq<char>)
    ensures
        ({
            let c = host_copy(ssh, h, new, suffix);
            &&& c.id == new
            &&& c.host == h.host && c.user == h.user && c.port == h.port && c.auth == h.auth
                && c.identity_file == h.identity_file && c.jump == h.jump
            &&& c.color == h.color && c.commands == h.commands
            &&& !c.password_saved && !c.imported
        }),
{
}

/// The folders of a file manager are kept in its host, and in no other; a remote one that is
/// not known does not replace the one that is.
pub proof fn law_folders_kept(
    c: ConfigModel,
    host: u128,
    local: Seq<char>,
    remote: Option<Seq<char>>,
    i: int,
)
    requires
        0 <= i < c.ssh.len(),
    ensures
        ({
            let r = folders_kept(c, host, local, remote);
            &&& r.ssh.len() == c.ssh.len()
            &&& c.ssh[i].id != host ==> r.ssh[i] == c.ssh[i]
            &&& c.ssh[i].id == host && (forall|a: int|
                0 <= a < i ==> (#[trigger] c.ssh[a]).id != host) ==> r.ssh[i].sftp_local == Some(
                local,
            ) && (remote is Some ==> r.ssh[i].sftp_remote == remote) && (remote is None
                ==> r.ssh[i].sftp_remote == c.ssh[i].sftp_remote) && r.ssh[i].name == c.ssh[i].name
        }),
{
    law_host_found(c.ssh, host, i);
    let p = host_place(c.ssh, host);
    lemma_place(host_ids(c.ssh), host);
    if p < c.ssh.len() {
        assert(host_ids(c.ssh)[p] == c.ssh[p].id);
    }
}

/// The dialog of a profile shows the profile as it is.
pub proof fn law_profile_dialog_opens(p: ProfileModel, i: int)
    ensures
        ({
            let e = ProfileEditorModel::opened(p);
            &&& e.id == p.id && e.color == p.tab.color && e.commands == p.commands
            &&& p.tab.name matches Some(n) ==> e.name == n
            &&& e.cwds.len() == p.tab.layout.dirs().len()
            &&& 0 <= i < e.cwds.len() ==> (p.tab.layout.dirs()[i] matches Some(d) ==> e.cwds[i] == d)
            &&& e.new_command.len() == 0 && e.error is None
        }),
{
}

/// The name of a profile is needed and is its own.
pub proof fn law_profile_refused(
    m: AppModel,
    e: ProfileEditorModel,
    dirs: Seq<Option<Seq<char>>>,
    t: Strings,
    k: int,
)
    ensures
        trimmed(e.name).len() == 0 ==> e.refusal(m.config.profiles, t) == Some(t.host_required@),
        trimmed(e.name).len() > 0 && 0 <= k < m.config.profiles.len() && m.config.profiles[k].id
            != e.id && m.config.profiles[k].tab.name == Some(trimmed(e.name)) ==> e.refusal(
            m.config.profiles,
            t,
        ) == Some(t.name_taken@),
        e.refusal(m.config.profiles, t) is Some ==> m.edit_confirmed(e, dirs, t) == m,
        m.config.profiles.len() == 0 && trimmed(e.name).len() > 0 ==> e.refusal(
            m.config.profiles,
            t,
        ) is None,
{
    if 0 <= k < m.config.profiles.len() {
        assert(Some(m.config.profiles[k].id) != Some(e.id) <==> m.config.profiles[k].id != e.id);
    }
}

/// A profile that was edited has the name, the color, the directories and the commands of
/// the dialog, and keeps its panes; its tab has the name and the color, too.
pub proof fn law_profile_edited(
    m: AppModel,
    e: ProfileEditorModel,
    dirs: Seq<Option<Seq<char>>>,
    k: int,
    i: int,
)
    requires
        0 <= k < m.config.profiles.len(),
        m.config.profiles[k].id == e.id,
        forall|a: int| 0 <= a < k ==> (#[trigger] m.config.profiles[a]).id != e.id,
    ensures
        ({
            let r = m.editing(e, dirs);
            let p = r.config.profiles[k];
            &&& p.id == e.id
            &&& p.tab.name == Some(trimmed(e.name))
            &&& p.tab.color == e.color
            &&& p.tab.layout == m.config.profiles[k].tab.layout.with_dirs(dirs)
            &&& p.commands == tidy(e.commands)
            &&& r.config.profiles.len() == m.config.profiles.len()
            &&& r.tabs.len() == m.tabs.len()
            &&& 0 <= i < m.tabs.len() && m.tabs[i].profile == Some(e.id) ==> r.tabs[i].name == Some(
                trimmed(e.name),
            ) && r.tabs[i].color == e.color && r.tabs[i].layout == m.tabs[i].layout
            &&& 0 <= i < m.tabs.len() && m.tabs[i].profile != Some(e.id) ==> r.tabs[i] == m.tabs[i]
        }),
{
    law_profile_found(m.config.profiles, e.id, k);
    let p = profile_place(m.config.profiles, e.id);
    if p < k {
        assert(m.config.profiles[p].id != e.id);
    }
    let a = m.renaming_profile(e.id, trimmed(e.name));
    crate::actions_laws::law_profile_renamed(m, e.id, trimmed(e.name), i, k);
    let b = a.coloring_profile(e.id, e.color);
    assert(crate::arrange::profile_ids(a.config.profiles) =~= crate::arrange::profile_ids(
        m.config.profiles,
    ));
    assert(crate::arrange::profile_ids(b.config.profiles) =~= crate::arrange::profile_ids(
        m.config.profiles,
    ));
    crate::app::lemma_profile_tab_is(b.tabs, e.id);
}

/// The commands of a dialog are kept without the empty ones and without the spaces around
/// them.
pub proof fn law_tidy_commands(commands: Seq<Seq<char>>, x: Seq<char>)
    ensures
        tidy(commands).contains(x) <==> exists|i: int|
            0 <= i < commands.len() && trimmed(#[trigger] commands[i]) == x && x.len() > 0,
    decreases commands.len(),
{
    if commands.len() > 0 {
        let rest = commands.drop_last();
        law_tidy_commands(rest, x);
        let all = tidy(commands);
        let before = tidy(rest);
        if before.contains(x) {
            let k = choose|k: int| 0 <= k < before.len() && before[k] == x;
            assert(all[k] == x);
        }
        if let Some(c) = typed(commands.last()) {
            assert(all.last() == c);
            if all.contains(x) && x != c {
                let k = choose|k: int| 0 <= k < all.len() && all[k] == x;
                assert(before[k] == x);
            }
        }
        if exists|i: int|
            0 <= i < rest.len() && trimmed(#[trigger] rest[i]) == x && x.len() > 0 {
            let i = choose|i: int|
                0 <= i < rest.len() && trimmed(#[trigger] rest[i]) == x && x.len() > 0;
            assert(trimmed(commands[i]) == x);
        }
        if exists|i: int|
            0 <= i < commands.len() && trimmed(#[trigger] commands[i]) == x && x.len() > 0 {
            let i = choose|i: int|
                0 <= i < commands.len() && trimmed(#[trigger] commands[i]) == x && x.len() > 0;
            if i < rest.len() {
                assert(trimmed(rest[i]) == x);
            }
        }
        assert(commands[commands.len() - 1] == commands.last());
    }
}

/// A typed command comes last in the dialog, and the line is empty again.
pub proof fn law_dialog_command(e: ProfileEditorModel)
    ensures
        trimmed(e.new_command).len() == 0 ==> e.command_added() == e,
        trimmed(e.new_command).len() > 0 ==> e.command_added().commands == e.commands.push(
            trimmed(e.new_command),
        ) && e.command_added().new_command.len() == 0 && e.command_added().name == e.name,
{
}

/// A copy stands directly after its original.
pub proof fn law_put_after(list: Seq<u128>, id: u128, new: u128, i: int)
    requires
        0 <= i < list.len(),
        list[i] == id,
        forall|a: int| 0 <= a < i ==> #[trigger] list[a] != id,
    ensures
        put_after(list, id, new).len() == list.len() + 1,
        put_after(list, id, new)[i] == id,
        put_after(list, id, new)[i + 1] == new,
        put_after(list, id, new).remove(i + 1) == list,
{
    crate::ids::lemma_place_is(list, id, i);
    assert(put_after(list, id, new).remove(i + 1) =~= list);
}

proof fn lemma_kind_ids(c: ConfigModel, items: Seq<u128>, local: bool, x: u128)
    ensures
        kind_ids(c, items, local).contains(x) <==> items.contains(x) && is_kind(c, x, local),
    decreases items.len(),
{
    if items.len() > 0 {
        let rest = items.drop_last();
        lemma_kind_ids(c, rest, local, x);
        assert(items =~= rest.push(items.last()));
        crate::arrange::lemma_contains_push(rest, items.last());
        crate::arrange::lemma_contains_push(kind_ids(c, rest, local), items.last());
    }
}

/// The lists of the settings hold what stands in a group under the name of the group, and the
/// rest last.
pub proof fn law_sections(c: ConfigModel, local: bool, no_group: Seq<char>, x: u128)
    requires
        c.ungrouped.contains(x),
        is_kind(c, x, local),
    ensures
        sections(c, local, no_group).len() > 0,
        sections(c, local, no_group).last().1.contains(x),
{
    lemma_kind_ids(c, c.ungrouped, local, x);
}

proof fn lemma_group_sections(c: ConfigModel, local: bool, n: nat, g: int, x: u128)
    requires
        0 <= g < n <= c.groups.len(),
        c.groups[g].local == local,
        c.groups[g].items.contains(x),
        is_kind(c, x, local),
    ensures
        exists|k: int|
            0 <= k < group_sections(c, local, n).len() && (#[trigger] group_sections(
                c,
                local,
                n,
            )[k]).0 == Some(c.groups[g].name) && group_sections(c, local, n)[k].1.contains(x),
    decreases n,
{
    let rest = group_sections(c, local, (n - 1) as nat);
    let all = group_sections(c, local, n);
    if g < n - 1 {
        lemma_group_sections(c, local, (n - 1) as nat, g, x);
        let k = choose|k: int|
            0 <= k < rest.len() && (#[trigger] rest[k]).0 == Some(c.groups[g].name)
                && rest[k].1.contains(x);
        assert(all[k] == rest[k]);
    } else {
        lemma_kind_ids(c, c.groups[g].items, local, x);
        assert(all[all.len() - 1].0 == Some(c.groups[g].name));
    }
}

/// What stands in a group is listed under its name.
pub proof fn law_group_section(c: ConfigModel, local: bool, no_group: Seq<char>, g: int, x: u128)
    requires
        0 <= g < c.groups.len(),
        c.groups[g].local == local,
        c.groups[g].items.contains(x),
        is_kind(c, x, local),
    ensures
        exists|k: int|
            0 <= k < sections(c, local, no_group).len() && (#[trigger] sections(
                c,
                local,
                no_group,
            )[k]).0 == Some(c.groups[g].name) && sections(c, local, no_group)[k].1.contains(x),
{
    lemma_group_sections(c, local, c.groups.len(), g, x);
    let groups = group_sections(c, local, c.groups.len());
    let k = choose|k: int|
        0 <= k < groups.len() && (#[trigger] groups[k]).0 == Some(c.groups[g].name)
            && groups[k].1.contains(x);
    assert(sections(c, local, no_group)[k] == groups[k]);
}

/// The text of the config is what is edited; going back gives the config again, and a
/// refused text stays with its error.
pub proof fn law_config_text(e: ConfigEditorModel, current: Seq<char>, error: Seq<char>)
    ensures
        ConfigEditorModel::fresh(current).text == current,
        !ConfigEditorModel::fresh(current).dirty(),
        ConfigEditorModel::fresh(current).error is None,
        e.dirty() == (e.text != e.base),
        e.dirty() ==> e.reverted(current).text == current && !e.reverted(current).dirty(),
        !e.dirty() ==> e.reverted(current) == e,
        e.refused(error).text == e.text,
        e.refused(error).error == Some(error),
{
}

/// The settings that are picked are in force; the same ones again change nothing.
pub proof fn law_settings_picked(m: AppModel, picked: SettingsModel, c: ConfigModel)
    ensures
        m.settings_picked(picked).config.settings == picked,
        m.settings_picked(picked).config.profiles == m.config.profiles,
        m.settings_picked(picked).config.ssh == m.config.ssh,
        m.settings_picked(m.config.settings) == m,
        !m.settings_closed().settings_dialog,
        m.settings_closed().config == m.config,
        m.config_typed(c).config == c,
        m.config_typed(c).config_writable == !m.read_only,
        m.with_settings_shown(true).settings_dialog,
        !m.with_settings_shown(false).settings_dialog,
{
}

/// A host that is stored in another group comes last in it; in the one that it is in it stays
/// where it is.
pub proof fn law_host_in_its_group(c: ConfigModel, host: SshHostModel, group: Option<u128>)
    ensures
        group_of(c, host.id) != group ==> ({
            let list = list_of(host_stored(c, host, group), group);
            list.len() > 0 && list.last() == host.id
        }),
        group_of(c, host.id) == group && (group is Some || c.ungrouped.contains(host.id))
            ==> host_stored(c, host, group).groups == c.groups && host_stored(
            c,
            host,
            group,
        ).ungrouped == c.ungrouped,
        group is None && !c.ungrouped.contains(host.id) ==> host_stored(
            c,
            host,
            group,
        ).ungrouped.last() == host.id,
{
    let d = ConfigModel { ssh: host_put(c.ssh, host), ..c };
    crate::sidebar_laws::law_item_dropped_last(d, host.id, group);
}

/// The copy of a profile has a name that no profile has.
pub proof fn law_profile_copy_named(
    c: ConfigModel,
    id: u128,
    new: u128,
    untitled: Seq<char>,
    suffix: Seq<char>,
    k: int,
)
    requires
        has_profile(c.profiles, id),
        0 <= k < c.profiles.len(),
    ensures
        ({
            let i = profile_place(c.profiles, id);
            let name = with_copy(c, id, new, untitled, suffix).profiles[i + 1].tab.name;
            name is Some && begins(name->0, c.profiles[i].title(untitled)) && c.profiles[k].tab.name
                != name
        }),
{
    law_profile_found(c.profiles, id, 0);
    let i = profile_place(c.profiles, id);
    let title = c.profiles[i].title(untitled);
    let names = names_in(c.profiles);
    law_free_name(title, suffix, names);
    law_copy_name(title, suffix, names, free_name(title, suffix, names));
    if let Some(n) = c.profiles[k].tab.name {
        lemma_names_in(c.profiles, k);
    }
}

proof fn lemma_names_in(profiles: Seq<ProfileModel>, k: int)
    requires
        0 <= k < profiles.len(),
        profiles[k].tab.name is Some,
    ensures
        names_in(profiles).contains(profiles[k].tab.name->0),
    decreases profiles.len(),
{
    let rest = profiles.drop_last();
    let all = names_in(profiles);
    if k < rest.len() {
        lemma_names_in(rest, k);
        let before = names_in(rest);
        let j = choose|j: int| 0 <= j < before.len() && before[j] == profiles[k].tab.name->0;
        assert(all[j] == before[j]);
    } else {
        assert(all.last() == profiles[k].tab.name->0);
    }
}

/// The copy of a host has a name that no host has.
pub proof fn law_host_copy_named(
    ssh: Seq<SshHostModel>,
    h: SshHostModel,
    new: u128,
    suffix: Seq<char>,
    k: int,
)
    requires
        0 <= k < ssh.len(),
    ensures
        begins(host_copy(ssh, h, new, suffix).name, h.name),
        host_copy(ssh, h, new, suffix).name != ssh[k].name,
{
    let names = crate::hosts::host_names(ssh);
    law_free_name(h.name, suffix, names);
    law_copy_name(h.name, suffix, names, free_name(h.name, suffix, names));
    assert(names[k] == ssh[k].name);
}

/// The copy of a profile outside groups stands directly after its original.
pub proof fn law_profile_copy_stands(
    c: ConfigModel,
    id: u128,
    new: u128,
    untitled: Seq<char>,
    suffix: Seq<char>,
)
    requires
        has_profile(c.profiles, id),
        group_of(c, id) is None,
    ensures
        with_copy(c, id, new, untitled, suffix).ungrouped == put_after(c.ungrouped, id, new),
        with_copy(c, id, new, untitled, suffix).groups == c.groups,
        with_copy(c, id, new, untitled, suffix).ssh == c.ssh,
{
    law_profile_found(c.profiles, id, 0);
}

} // verus!
