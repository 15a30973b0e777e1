//! SSH hosts: their editor, what may be saved of them, and importing, copying and
//! deleting them.

use crate::app::{App, AppModel};
use crate::arrange::{arranged, flat, normalized, unplaced};
use crate::arrange_laws::{lemma_times_add, times};
use crate::config::{Config, ConfigModel, GroupModel, SshAuth, SshHost, SshHostModel};
use crate::copies::{copy_name, free_name};
use crate::find::{find_host, has_host, host_place};
use crate::ids::{holds_id, is_random};
use crate::model::{lemma_push, lemma_update, models, Duplicate};
use crate::sidebar::{group_of, put_item};
use crate::strings::Strings;
use crate::tab::TabModel;
use crate::text::{
    decimal, drop_front, holds, number, opt_view, parse_number, same_str, to_chars, to_decimal,
    trim, trim_front, trim_str, trimmed, views, Class,
};
use vstd::prelude::*;

verus! {

/// An SSH host being created or edited.
#[derive(Debug)]
pub struct HostEditor {
    pub draft: SshHost,
    pub port: String,
    /// Typed path when the key is not one of those found in ~/.ssh.
    pub custom_key: String,
    pub keys: Vec<String>,
    pub password: String,
    /// The password field was edited: save (or forget, if emptied) it on save.
    pub password_changed: bool,
    /// Password shown in clear (the saved one is loaded from the keychain for that).
    pub reveal: bool,
    /// Sidebar group to put the host in (None: outside groups).
    pub group: Option<u128>,
    pub is_new: bool,
    pub error: Option<String>,
}

#[verifier::ext_equal]
pub struct HostEditorModel {
    pub draft: SshHostModel,
    pub port: Seq<char>,
    pub custom_key: Seq<char>,
    pub keys: Seq<Seq<char>>,
    pub password: Seq<char>,
    pub password_changed: bool,
    pub reveal: bool,
    pub group: Option<u128>,
    pub is_new: bool,
    pub error: Option<Seq<char>>,
}

impl View for HostEditor {
    type V = HostEditorModel;

    open spec fn view(&self) -> HostEditorModel {
        HostEditorModel {
            draft: self.draft@,
            port: self.port@,
            custom_key: self.custom_key@,
            keys: views(self.keys@),
            password: self.password@,
            password_changed: self.password_changed,
            reveal: self.reveal,
            group: self.group,
            is_new: self.is_new,
            error: opt_view(self.error),
        }
    }
}

/// Whether ssh would read a value as an option: it starts with a dash.
pub open spec fn dashed(s: Seq<char>) -> bool {
    let t = drop_front(s, Class::Space);
    t.len() > 0 && t[0] == '-'
}

pub open spec fn opt_dashed(s: Option<Seq<char>>) -> bool {
    match s {
        Some(s) => dashed(s),
        None => false,
    }
}

/// The port that a text spells, or none where it is no port.
pub open spec fn port_of(s: Seq<char>) -> Option<nat> {
    match number(trimmed(s), 10, 0xffff) {
        Some(p) => if p > 0 {
            Some(p)
        } else {
            None
        },
        None => None,
    }
}

/// A host as it was filled in, tidied: named after its address where it has no name.
pub open spec fn tidied(e: HostEditorModel) -> SshHostModel {
    let d = e.draft;
    SshHostModel {
        host: trimmed(d.host),
        port: if trimmed(e.port).len() == 0 {
            None
        } else {
            match port_of(e.port) {
                Some(p) => Some(p as u16),
                None => None,
            }
        },
        name: if trimmed(d.name).len() == 0 {
            trimmed(d.host)
        } else {
            trimmed(d.name)
        },
        identity_file: match d.identity_file {
            Some(k) => if k.len() == 0 {
                None
            } else {
                Some(k)
            },
            None => None,
        },
        ..d
    }
}

/// What to do with the saved password of a host.
#[derive(Debug)]
pub enum Keychain {
    /// Nothing: it was not edited.
    Keep,
    Delete,
    Save(String),
}

#[verifier::ext_equal]
pub enum KeychainModel {
    Keep,
    Delete,
    Save(Seq<char>),
}

impl View for Keychain {
    type V = KeychainModel;

    open spec fn view(&self) -> KeychainModel {
        match *self {
            Keychain::Keep => KeychainModel::Keep,
            Keychain::Delete => KeychainModel::Delete,
            Keychain::Save(p) => KeychainModel::Save(p@),
        }
    }
}

/// Whether a method keeps a password.
pub open spec fn keeps_password(auth: SshAuth) -> bool {
    auth is Password || auth is Key
}

/// The editor with the password forgotten, where the method keeps none.
pub open spec fn password_checked(e: HostEditorModel, host: SshHostModel, auth: SshAuth) -> HostEditorModel {
    if !keeps_password(auth) && host.password_saved {
        HostEditorModel { password: Seq::empty(), password_changed: true, ..e }
    } else {
        e
    }
}

/// What to do with the saved password on save.
pub open spec fn keychain_of(e: HostEditorModel) -> KeychainModel {
    if !e.password_changed {
        KeychainModel::Keep
    } else if e.password.len() == 0 {
        KeychainModel::Delete
    } else {
        KeychainModel::Save(e.password)
    }
}

/// A host, given what was done with its password.
pub open spec fn with_password(host: SshHostModel, k: KeychainModel) -> SshHostModel {
    SshHostModel {
        password_saved: match k {
            KeychainModel::Keep => host.password_saved,
            KeychainModel::Delete => false,
            KeychainModel::Save(_) => true,
        },
        ..host
    }
}

/// Notes what was done with the password of a host.
pub fn password_stored(host: &mut SshHost, k: &Keychain)
    ensures
        final(host)@ == with_password(old(host)@, k@),
{
    match k {
        Keychain::Keep => {},
        Keychain::Delete => {
            host.password_saved = false;
        },
        Keychain::Save(_) => {
            host.password_saved = true;
        },
    }
}

fn is_dashed(s: &str) -> (r: bool)
    ensures
        r == dashed(s@),
{
    let t = trim_front(&to_chars(s), Class::Space);
    t.len() > 0 && t[0] == '-'
}

fn is_opt_dashed(s: &Option<String>) -> (r: bool)
    ensures
        r == opt_dashed(opt_view(*s)),
{
    match s {
        Some(s) => is_dashed(s.as_str()),
        None => false,
    }
}

impl HostEditor {
    /// The editor of a host. `keys` are the keys found in ~/.ssh, `shown` how the
    /// path of the host's own is shown.
    pub fn new(
        draft: SshHost,
        is_new: bool,
        group: Option<u128>,
        keys: Vec<String>,
        shown: String,
    ) -> (r: HostEditor)
        ensures
            r@ == (HostEditorModel {
                draft: draft@,
                port: match draft@.port {
                    Some(p) => decimal(p as nat),
                    None => Seq::empty(),
                },
                custom_key: if draft@.identity_file matches Some(k) && !views(keys@).contains(k) {
                    shown@
                } else {
                    Seq::empty()
                },
                keys: views(keys@),
                password: Seq::empty(),
                password_changed: false,
                reveal: false,
                group,
                is_new,
                error: None,
            }),
            r@ == HostEditorModel::opened(draft@, is_new, group, views(keys@), shown@),
    {
        let custom = match &draft.identity_file {
            Some(k) => !holds(&keys, k.as_str()),
            None => false,
        };
        let port = match draft.port {
            Some(p) => to_decimal(p as u64),
            None => String::new(),
        };
        let none = String::new();
        let custom_key = if custom {
            shown
        } else {
            String::new()
        };
        let r = HostEditor {
            port,
            draft,
            custom_key,
            keys,
            password: none,
            password_changed: false,
            reveal: false,
            group,
            is_new,
            error: None,
        };
        assert(r@.password =~= Seq::empty());
        assert(!custom ==> r@.custom_key =~= Seq::empty());
        assert(draft@.port is None ==> r@.port =~= Seq::empty());
        r
    }

    /// The host as it was filled in, tidied, or why it can't be saved. ssh would read
    /// a value starting with "-" as an option.
    pub fn check(&self, t: &Strings) -> (r: Result<SshHost, &'static str>)
        ensures
            ({
                let e = self@;
                if trimmed(e.draft.host).len() == 0 {
                    r == Err::<SshHost, &'static str>(t.host_required)
                } else if dashed(trimmed(e.draft.host)) || opt_dashed(e.draft.user) || opt_dashed(
                    e.draft.jump,
                ) {
                    r == Err::<SshHost, &'static str>(t.invalid_dash)
                } else if trimmed(e.port).len() > 0 && port_of(e.port) is None {
                    r == Err::<SshHost, &'static str>(t.invalid_port)
                } else {
                    r matches Ok(host) && host@ == tidied(e)
                }
            }),
            match r {
                Ok(h) => self@.refusal(*t) is None && h@ == tidied(self@),
                Err(e) => self@.refusal(*t) == Some(e@),
            },
    {
        let mut host = self.draft.duplicate();
        host.host = trim_str(self.draft.host.as_str());
        let address = to_chars(host.host.as_str());
        if address.len() == 0 {
            return Err(t.host_required);
        }
        if is_dashed(host.host.as_str()) || is_opt_dashed(&host.user) || is_opt_dashed(&host.jump) {
            return Err(t.invalid_dash);
        }
        let port = trim(&to_chars(self.port.as_str()));
        host.port = if port.len() == 0 {
            None
        } else {
            match parse_number(&port, 10, 0xffff) {
                Some(p) => {
                    if p == 0 {
                        return Err(t.invalid_port);
                    }
                    Some(p as u16)
                },
                None => {
                    return Err(t.invalid_port);
                },
            }
        };
        host.name = trim_str(self.draft.name.as_str());
        if to_chars(host.name.as_str()).len() == 0 {
            host.name = host.host.clone();
        }
        let empty_key = match &host.identity_file {
            Some(k) => to_chars(k.as_str()).len() == 0,
            None => false,
        };
        if empty_key {
            host.identity_file = None;
        }
        assert(host@ =~= tidied(self@));
        Ok(host)
    }

    /// Checks a tidied host against its method: a key needs its file, a saved password
    /// its password. Gives what to do with the saved password.
    pub fn finish(&mut self, host: &mut SshHost, auth: SshAuth, t: &Strings) -> (r: Result<
        Keychain,
        &'static str,
    >)
        ensures
            ({
                let e = old(self)@;
                let h = old(host)@;
                if auth is Key && h.identity_file is None {
                    &&& r == Err::<Keychain, &'static str>(t.key_required)
                    &&& final(self)@ == e
                    &&& final(host)@ == h
                } else {
                    let keyed = if auth is Key {
                        h
                    } else {
                        SshHostModel { identity_file: None, ..h }
                    };
                    if auth is Password && e.password.len() == 0 && (e.password_changed
                        || !h.password_saved) {
                        &&& r == Err::<Keychain, &'static str>(t.password_required)
                        &&& final(self)@ == e
                        &&& final(host)@ == keyed
                    } else {
                        &&& final(self)@ == password_checked(e, h, auth)
                        &&& r matches Ok(k) && k@ == keychain_of(password_checked(e, h, auth))
                        &&& final(host)@ == keyed
                    }
                }
            }),
            match r {
                Ok(k) => old(self)@.login_refusal(old(host)@, auth, *t) is None && final(host)@ == keyed(
                    old(host)@,
                    auth,
                ),
                Err(e) => old(self)@.login_refusal(old(host)@, auth, *t) == Some(e@),
            },
    {
        if auth == SshAuth::Key && host.identity_file.is_none() {
            return Err(t.key_required);
        }
        if auth != SshAuth::Key {
            host.identity_file = None;
        }
        let empty = to_chars(self.password.as_str()).len() == 0;
        if auth == SshAuth::Password && empty && (self.password_changed || !host.password_saved) {
            return Err(t.password_required);
        }
        // Only the "saved password" and key methods keep one.
        let keeps = auth == SshAuth::Password || auth == SshAuth::Key;
        if !keeps && host.password_saved {
            let none = String::new();
            assert(none@ =~= Seq::empty());
            self.password = none;
            self.password_changed = true;
        }
        if !self.password_changed {
            Ok(Keychain::Keep)
        } else if to_chars(self.password.as_str()).len() == 0 {
            Ok(Keychain::Delete)
        } else {
            Ok(Keychain::Save(self.password.clone()))
        }
    }

    /// Shows the password in clear, or hides it. Tells whether the saved one is to be
    /// loaded, so it can be checked or corrected.
    pub fn toggle_reveal(&mut self) -> (load: bool)
        ensures
            final(self)@ == (HostEditorModel { reveal: !old(self).reveal, ..old(self)@ }),
            load == (!old(self).reveal && old(self)@.draft.password_saved && !old(
                self,
            ).password_changed && old(self)@.password.len() == 0),
            final(self)@ == old(self)@.revealed(),
            load == old(self)@.loads_password(),
    {
        self.reveal = !self.reveal;
        self.reveal && self.draft.password_saved && !self.password_changed && to_chars(
            self.password.as_str(),
        ).len() == 0
    }
}

/// What may be saved can't be read as an option by ssh.
pub proof fn law_no_dashes(e: HostEditorModel)
    requires
        trimmed(e.draft.host).len() > 0,
        !dashed(trimmed(e.draft.host)),
        !opt_dashed(e.draft.user),
        !opt_dashed(e.draft.jump),
    ensures
        !dashed(tidied(e).host),
        !opt_dashed(tidied(e).user),
        !opt_dashed(tidied(e).jump),
        tidied(e).host.len() > 0,
        tidied(e).name.len() > 0,
{
}

/// The hosts, with one stored: in the place of the one of its id, or last.
pub open spec fn host_put(ssh: Seq<SshHostModel>, host: SshHostModel) -> Seq<SshHostModel> {
    let i = host_place(ssh, host.id);
    if i < ssh.len() {
        ssh.update(i, host)
    } else {
        ssh.push(host)
    }
}

/// The config with a host stored. It moves only if its group changed, so it keeps
/// its place otherwise.
pub open spec fn host_stored(c: ConfigModel, host: SshHostModel, group: Option<u128>) -> ConfigModel {
    let d = ConfigModel { ssh: host_put(c.ssh, host), ..c };
    let current = group_of(d, host.id);
    if (current is None && !d.ungrouped.contains(host.id)) || current != group {
        put_item(unplaced(d, host.id), host.id, group, None)
    } else {
        d
    }
}

/// Being another host.
pub open spec fn other_host(id: u128) -> spec_fn(SshHostModel) -> bool {
    |h: SshHostModel| h.id != id
}

/// A tab that was of a host that is deleted: its session keeps running as a plain tab.
pub open spec fn tab_disowned(t: TabModel, id: u128) -> TabModel {
    if t.ssh == Some(id) {
        TabModel { ssh: None, ..t }
    } else {
        t
    }
}

/// Whether a host of a list has the same name and address as another.
pub open spec fn known_host(ssh: Seq<SshHostModel>, host: SshHostModel) -> bool {
    exists|i: int|
        0 <= i < ssh.len() && (#[trigger] ssh[i]).name == host.name && ssh[i].host == host.host
}

/// Being none of the hosts of a list.
pub open spec fn unknown_to(ssh: Seq<SshHostModel>) -> spec_fn(SshHostModel) -> bool {
    |h: SshHostModel| !known_host(ssh, h)
}

/// The config with the hosts of a list that it doesn't have yet.
pub open spec fn with_new_hosts(c: ConfigModel, found: Seq<SshHostModel>) -> ConfigModel {
    ConfigModel { ssh: c.ssh + found.filter(unknown_to(c.ssh)), ..c }
}

/// The names of hosts.
pub open spec fn host_names(ssh: Seq<SshHostModel>) -> Seq<Seq<char>> {
    ssh.map_values(|h: SshHostModel| h.name)
}

/// A copy of a host, to be edited before it is saved.
pub open spec fn host_copy(ssh: Seq<SshHostModel>, h: SshHostModel, new: u128, suffix: Seq<char>) -> SshHostModel {
    SshHostModel {
        id: new,
        imported: false,
        name: free_name(h.name, suffix, host_names(ssh)),
        password_saved: false,
        ..h
    }
}

impl Config {
    /// Stores a host that was edited, in a group (None: outside groups).
    pub fn store_host(&mut self, host: SshHost, group: Option<u128>)
        ensures
            final(self)@ == host_stored(old(self)@, host@, group),
    {
        let ghost c = self@;
        let id = host.id;
        let i = find_host(&self.ssh, id);
        let ghost before = self.ssh@;
        if i < self.ssh.len() {
            self.ssh[i] = host;
            proof {
                assert(self.ssh@ =~= before.update(i as int, host));
                lemma_update(before, i as int, host);
            }
        } else {
            self.ssh.push(host);
            proof {
                lemma_push(before, host);
            }
        }
        let ghost d = self@;
        assert(d =~= ConfigModel { ssh: host_put(c.ssh, host@), ..c });
        let current = self.group_of(id);
        let placed = current.is_some() || holds_id(&self.ungrouped, id);
        if !placed || current != group {
            self.drop_item(id, group, None);
        }
    }

    /// The hosts of a list that this config doesn't have yet.
    pub fn new_hosts(&self, found: &Vec<SshHost>) -> (r: Vec<SshHost>)
        ensures
            models(r@) == models(found@).filter(unknown_to(self@.ssh)),
    {
        let ghost all = models(found@);
        let ghost p = unknown_to(self@.ssh);
        let mut r: Vec<SshHost> = Vec::new();
        let mut i: usize = 0;
        proof {
            reveal(Seq::filter);
            assert(models(r@) =~= all.take(0).filter(p));
        }
        while i < found.len()
            invariant
                i <= found@.len(),
                all == models(found@),
                p == unknown_to(self@.ssh),
                models(r@) == all.take(i as int).filter(p),
            decreases found.len() - i,
        {
            proof {
                reveal(Seq::filter);
                assert(all.take(i + 1).drop_last() =~= all.take(i as int));
            }
            if !self.knows(&found[i]) {
                let ghost before = r@;
                let h = found[i].duplicate();
                r.push(h);
                proof {
                    lemma_push(before, h);
                }
            }
            i += 1;
        }
        assert(all.take(i as int) =~= all);
        r
    }

    fn knows(&self, host: &SshHost) -> (r: bool)
        ensures
            r == known_host(self@.ssh, host@),
    {
        let mut i: usize = 0;
        while i < self.ssh.len()
            invariant
                i <= self.ssh@.len(),
                forall|j: int|
                    0 <= j < i ==> !((#[trigger] self@.ssh[j]).name == host@.name
                        && self@.ssh[j].host == host@.host),
            decreases self.ssh.len() - i,
        {
            assert(self@.ssh[i as int] == self.ssh@[i as int]@);
            if same_str(self.ssh[i].name.as_str(), host.name.as_str()) && same_str(
                self.ssh[i].host.as_str(),
                host.host.as_str(),
            ) {
                return true;
            }
            i += 1;
        }
        false
    }

    /// Adds the hosts of ~/.ssh/config that this config doesn't have yet (in their groups).
    pub fn import_ssh(&mut self, found: &Vec<SshHost>)
        ensures
            exists|fresh: Seq<u128>|
                final(self)@ == #[trigger] normalized(
                    with_new_hosts(old(self)@, models(found@)),
                    fresh,
                ) && fresh.len() == with_new_hosts(old(self)@, models(found@)).ssh.len()
                    && forall|i: int| 0 <= i < fresh.len() ==> is_random(#[trigger] fresh[i]),
    {
        let ghost c = self@;
        let mut new = self.new_hosts(found);
        let ghost before = self.ssh@;
        let ghost added = new@;
        self.ssh.append(&mut new);
        assert(models(before + added) =~= models(before) + models(added));
        assert(self@ =~= with_new_hosts(c, models(found@)));
        self.normalize();
    }

    /// A copy of a host with a given id, to be edited before it is saved.
    pub fn copy_host(&self, id: u128, new: u128, t: &Strings) -> (r: Option<SshHost>)
        requires
            self.ssh@.len() < usize::MAX,
        ensures
            match r {
                Some(h) => has_host(self@.ssh, id) && h@ == host_copy(
                    self@.ssh,
                    self@.ssh[host_place(self@.ssh, id)],
                    new,
                    t.copy_suffix@,
                ),
                None => !has_host(self@.ssh, id),
            },
    {
        let i = find_host(&self.ssh, id);
        if i >= self.ssh.len() {
            return None;
        }
        let mut names: Vec<String> = Vec::new();
        let ghost all = host_names(self@.ssh);
        let mut k: usize = 0;
        assert(views(names@) =~= all.take(0));
        while k < self.ssh.len()
            invariant
                k <= self.ssh@.len(),
                all == host_names(self@.ssh),
                views(names@) == all.take(k as int),
                names@.len() == k,
            decreases self.ssh.len() - k,
        {
            let ghost before = views(names@);
            names.push(self.ssh[k].name.clone());
            assert(views(names@) =~= before.push(all[k as int]));
            assert(all.take(k + 1) =~= all.take(k as int).push(all[k as int]));
            k += 1;
        }
        assert(all.take(k as int) =~= all);
        let mut copy = self.ssh[i].duplicate();
        assert(self@.ssh[i as int] == self.ssh@[i as int]@);
        copy.id = new;
        copy.imported = false;
        copy.name = copy_name(self.ssh[i].name.as_str(), t.copy_suffix, &names);
        copy.password_saved = false;
        Some(copy)
    }

    /// Remembers the folders that the file manager of a host shows.
    pub fn remember_folders(&mut self, host: u128, local: String, remote: Option<String>)
        ensures
            final(self)@ == ({
                let c = old(self)@;
                let i = host_place(c.ssh, host);
                if i < c.ssh.len() {
                    ConfigModel {
                        ssh: c.ssh.update(
                            i,
                            SshHostModel {
                                sftp_local: Some(local@),
                                sftp_remote: if remote is Some {
                                    opt_view(remote)
                                } else {
                                    c.ssh[i].sftp_remote
                                },
                                ..c.ssh[i]
                            },
                        ),
                        ..c
                    }
                } else {
                    c
                }
            }),
            final(self)@ == folders_kept(old(self)@, host, local@, opt_view(remote)),
    {
        let ghost c = self@;
        let i = find_host(&self.ssh, host);
        if i < self.ssh.len() {
            let ghost before = self.ssh@;
            self.ssh[i].sftp_local = Some(local);
            if remote.is_some() {
                self.ssh[i].sftp_remote = remote;
            }
            proof {
                assert(self.ssh@ =~= before.update(i as int, self.ssh@[i as int]));
                lemma_update(before, i as int, self.ssh@[i as int]);
                assert(c.ssh[i as int] == before[i as int]@);
            }
        }
    }
}

impl App {
    /// Deletes a host; its open sessions keep running as plain tabs. (Its password is
    /// to be deleted from the keychain.)
    pub fn delete_host(&mut self, id: u128)
        ensures
            final(self)@ == (AppModel {
                config: ConfigModel {
                    ssh: old(self)@.config.ssh.filter(other_host(id)),
                    ..old(self)@.config
                },
                tabs: old(self)@.tabs.map_values(|t: TabModel| tab_disowned(t, id)),
                ..old(self)@
            }),
            final(self)@ == old(self)@.without_host(id),
    {
        let ghost m = self@;
        let ghost p = other_host(id);
        let mut kept: Vec<SshHost> = Vec::new();
        let mut i: usize = 0;
        proof {
            reveal(Seq::filter);
            assert(models(kept@) =~= m.config.ssh.take(0).filter(p));
        }
        while i < self.config.ssh.len()
            invariant
                i <= self.config.ssh@.len(),
                self@ == m,
                p == other_host(id),
                models(kept@) == m.config.ssh.take(i as int).filter(p),
            decreases self.config.ssh.len() - i,
        {
            proof {
                reveal(Seq::filter);
                assert(m.config.ssh.take(i + 1).drop_last() =~= m.config.ssh.take(i as int));
                assert(m.config.ssh[i as int] == self.config.ssh@[i as int]@);
            }
            if self.config.ssh[i].id != id {
                let ghost before = kept@;
                let h = self.config.ssh[i].duplicate();
                kept.push(h);
                proof {
                    lemma_push(before, h);
                }
            }
            i += 1;
        }
        assert(m.config.ssh.take(i as int) =~= m.config.ssh);
        self.config.ssh = kept;
        let ghost half = self@;
        i = 0;
        while i < self.tabs.len()
            invariant
                i <= self.tabs@.len(),
                self.tabs@.len() == m.tabs.len(),
                half.tabs == m.tabs,
                forall|j: int|
                    0 <= j < i ==> (#[trigger] self.tabs@[j])@ == tab_disowned(m.tabs[j], id),
                forall|j: int| i <= j < m.tabs.len() ==> (#[trigger] self.tabs@[j])@ == m.tabs[j],
                self@ == (AppModel { tabs: self@.tabs, ..half }),
            decreases self.tabs.len() - i,
        {
            if self.tabs[i].ssh == Some(id) {
                self.tabs[i].ssh = None;
            }
            assert(self.tabs@[i as int]@ =~= tab_disowned(m.tabs[i as int], id));
            i += 1;
        }
        assert(self@.tabs =~= m.tabs.map_values(|t: TabModel| tab_disowned(t, id)));
    }
}

/// A host that is stored stands in the sidebar exactly once, if it stood there at
/// most once, and every other item as often as before.
pub proof fn law_host_stored_once(c: ConfigModel, host: SshHostModel, group: Option<u128>, x: u128)
    requires
        times(arranged(c), host.id) <= 1,
    ensures
        times(arranged(host_stored(c, host, group)), host.id) == 1,
        x != host.id ==> times(arranged(host_stored(c, host, group)), x) == times(arranged(c), x),
{
    let d = ConfigModel { ssh: host_put(c.ssh, host), ..c };
    let current = group_of(d, host.id);
    if (current is None && !d.ungrouped.contains(host.id)) || current != group {
        crate::sidebar::law_drop_item(d, host.id, group, None, host.id);
        crate::sidebar::law_drop_item(d, host.id, group, None, x);
    } else {
        lemma_held(d, host.id);
    }
}

/// An item that is outside groups or in one stands in the arrangement.
proof fn lemma_held(c: ConfigModel, id: u128)
    requires
        group_of(c, id) is Some || c.ungrouped.contains(id),
    ensures
        times(arranged(c), id) >= 1,
{
    lemma_times_add(c.ungrouped, flat(c.groups), id);
    if c.ungrouped.contains(id) {
        crate::arrange_laws::lemma_times(c.ungrouped, id);
    } else {
        lemma_held_in(c.groups, id);
    }
}

proof fn lemma_held_in(groups: Seq<GroupModel>, id: u128)
    requires
        crate::sidebar::holder(groups, id) < groups.len(),
    ensures
        times(flat(groups), id) >= 1,
    decreases groups.len(),
{
    let k = crate::sidebar::holder(groups, id);
    lemma_holder_holds(groups, id);
    let rest = groups.drop_last();
    lemma_times_add(flat(rest), groups.last().items, id);
    if k == groups.len() - 1 {
        crate::arrange_laws::lemma_times(groups.last().items, id);
    } else {
        lemma_holder_drop_last(groups, id);
        lemma_held_in(rest, id);
    }
}

proof fn lemma_holder_holds(groups: Seq<GroupModel>, id: u128)
    requires
        crate::sidebar::holder(groups, id) < groups.len(),
    ensures
        0 <= crate::sidebar::holder(groups, id),
        groups[crate::sidebar::holder(groups, id)].items.contains(id),
    decreases groups.len(),
{
    if !groups[0].items.contains(id) {
        lemma_holder_holds(groups.drop_first(), id);
    }
}

proof fn lemma_holder_drop_last(groups: Seq<GroupModel>, id: u128)
    requires
        crate::sidebar::holder(groups, id) < groups.len() - 1,
    ensures
        crate::sidebar::holder(groups.drop_last(), id) == crate::sidebar::holder(groups, id),
    decreases groups.len(),
{
    if !groups[0].items.contains(id) {
        lemma_holder_drop_last(groups.drop_first(), id);
        assert(groups.drop_first().drop_last() =~= groups.drop_last().drop_first());
    }
}

impl HostEditorModel {
    /// The dialog of a host as it opens.
    pub open spec fn opened(
        draft: SshHostModel,
        is_new: bool,
        group: Option<u128>,
        keys: Seq<Seq<char>>,
        shown: Seq<char>,
    ) -> HostEditorModel {
        HostEditorModel {
            draft,
            port: match draft.port {
                Some(p) => decimal(p as nat),
                None => Seq::empty(),
            },
            custom_key: if draft.identity_file matches Some(k) && !keys.contains(k) {
                shown
            } else {
                Seq::empty()
            },
            keys,
            password: Seq::empty(),
            password_changed: false,
            reveal: false,
            group,
            is_new,
            error: None,
        }
    }

    /// Why what is typed is refused, if it is.
    pub open spec fn refusal(self, t: Strings) -> Option<Seq<char>> {
        if trimmed(self.draft.host).len() == 0 {
            Some(t.host_required@)
        } else if dashed(trimmed(self.draft.host)) || opt_dashed(self.draft.user) || opt_dashed(
            self.draft.jump,
        ) {
            Some(t.invalid_dash@)
        } else if trimmed(self.port).len() > 0 && port_of(self.port) is None {
            Some(t.invalid_port@)
        } else {
            None
        }
    }

    /// What is missing for the way to log in, if anything.
    pub open spec fn login_refusal(self, host: SshHostModel, auth: SshAuth, t: Strings) -> Option<
        Seq<char>,
    > {
        if auth is Key && host.identity_file is None {
            Some(t.key_required@)
        } else if auth is Password && self.password.len() == 0 && (self.password_changed
            || !host.password_saved) {
            Some(t.password_required@)
        } else {
            None
        }
    }

    /// With the password shown, or hidden.
    pub open spec fn revealed(self) -> HostEditorModel {
        HostEditorModel { reveal: !self.reveal, ..self }
    }

    /// Whether showing the password takes the saved one.
    pub open spec fn loads_password(self) -> bool {
        !self.reveal && self.draft.password_saved && !self.password_changed && self.password.len()
            == 0
    }
}

/// A host without the key that its way to log in does not use.
pub open spec fn keyed(host: SshHostModel, auth: SshAuth) -> SshHostModel {
    if auth is Key {
        host
    } else {
        SshHostModel { identity_file: None, ..host }
    }
}

/// With the folders of a host kept.
pub open spec fn folders_kept(
    c: ConfigModel,
    host: u128,
    local: Seq<char>,
    remote: Option<Seq<char>>,
) -> ConfigModel {
    let i = host_place(c.ssh, host);
    if i < c.ssh.len() {
        ConfigModel {
            ssh: c.ssh.update(
                i,
                SshHostModel {
                    sftp_local: Some(local),
                    sftp_remote: if remote is Some {
                        remote
                    } else {
                        c.ssh[i].sftp_remote
                    },
                    ..c.ssh[i]
                },
            ),
            ..c
        }
    } else {
        c
    }
}

} // verus!
