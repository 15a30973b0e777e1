//! The settings: the editor of the config file, picking preferences, and the hosts
//! that were imported.

use crate::app::{App, AppModel};
use crate::config::{Config, ConfigModel, Settings, SettingsModel, SshHostModel};
use crate::hosts::{other_host, tab_disowned};
use crate::model::{models, Duplicate};
use crate::tab::TabModel;
use crate::text::{opt_view, same_str};
use vstd::prelude::*;

verus! {

/// The config file, while it is edited as text.
#[derive(Debug)]
pub struct ConfigEditor {
    pub text: String,
    /// The config as JSON when the text was loaded: the text is modified when it differs from it.
    pub base: String,
    pub error: Option<String>,
}

#[verifier::ext_equal]
pub struct ConfigEditorModel {
    pub text: Seq<char>,
    pub base: Seq<char>,
    pub error: Option<Seq<char>>,
}

impl View for ConfigEditor {
    type V = ConfigEditorModel;

    open spec fn view(&self) -> ConfigEditorModel {
        ConfigEditorModel { text: self.text@, base: self.base@, error: opt_view(self.error) }
    }
}

impl ConfigEditorModel {
    /// The editor of a config, given as JSON, with nothing typed.
    pub open spec fn fresh(json: Seq<char>) -> ConfigEditorModel {
        ConfigEditorModel { text: json, base: json, error: None }
    }

    /// Whether something was typed.
    pub open spec fn dirty(self) -> bool {
        self.text != self.base
    }

    /// The editor once the config is another: it follows, unless something was typed.
    pub open spec fn followed(self, current: Seq<char>) -> ConfigEditorModel {
        if !self.dirty() && self.base != current {
            ConfigEditorModel::fresh(current)
        } else {
            self
        }
    }
}

impl ConfigEditor {
    /// The editor of a config, given as JSON.
    pub fn new(json: String) -> (r: ConfigEditor)
        ensures
            r@ == ConfigEditorModel::fresh(json@),
    {
        ConfigEditor { text: json.clone(), base: json, error: None }
    }

    /// Whether something was typed.
    pub fn dirty(&self) -> (r: bool)
        ensures
            r == self@.dirty(),
    {
        !same_str(self.text.as_str(), self.base.as_str())
    }

    /// Nothing typed: follows changes made elsewhere (renamed tab, outside edit...).
    pub fn follow(&mut self, current: &str)
        ensures
            final(self)@ == old(self)@.followed(current@),
    {
        if !self.dirty() && !same_str(self.base.as_str(), current) {
            *self = ConfigEditor::new(current.to_owned());
        }
    }

    /// Goes back to the config as it is.
    pub fn revert(&mut self, current: &str)
        ensures
            final(self)@ == if old(self)@.dirty() {
                ConfigEditorModel::fresh(current@)
            } else {
                old(self)@
            },
            final(self)@ == old(self)@.reverted(current@),
    {
        if self.dirty() {
            *self = ConfigEditor::new(current.to_owned());
        }
    }

    /// Notes why the text is no config.
    pub fn refuse(&mut self, error: String)
        ensures
            final(self)@ == (ConfigEditorModel { error: Some(error@), ..old(self)@ }),
            final(self)@ == old(self)@.refused(error@),
    {
        self.error = Some(error);
    }
}

/// What is typed is never lost: only reverting or saving replaces it.
pub proof fn law_typed_text_stays(e: ConfigEditorModel, current: Seq<char>)
    ensures
        e.dirty() ==> e.followed(current) == e,
        !e.dirty() ==> e.followed(current).text == current && !e.followed(current).dirty(),
{
}

/// The hosts that were imported.
pub open spec fn imported_ids(ssh: Seq<SshHostModel>) -> Seq<u128>
    decreases ssh.len(),
{
    if ssh.len() == 0 {
        Seq::empty()
    } else {
        let rest = imported_ids(ssh.drop_last());
        if ssh.last().imported {
            rest.push(ssh.last().id)
        } else {
            rest
        }
    }
}

impl AppModel {
    /// Without a host; its open sessions keep running as plain tabs.
    pub open spec fn without_host(self, id: u128) -> AppModel {
        AppModel {
            config: ConfigModel { ssh: self.config.ssh.filter(other_host(id)), ..self.config },
            tabs: self.tabs.map_values(|t: TabModel| tab_disowned(t, id)),
            ..self
        }
    }

    /// Without hosts.
    pub open spec fn without_hosts(self, ids: Seq<u128>) -> AppModel
        decreases ids.len(),
    {
        if ids.len() == 0 {
            self
        } else {
            self.without_hosts(ids.drop_last()).without_host(ids.last())
        }
    }

    /// With a config that was typed in the settings. The file may be overwritten
    /// again, unless another instance runs.
    pub open spec fn config_typed(self, config: ConfigModel) -> AppModel {
        AppModel { config_writable: !self.read_only, ..self.configured(config) }
    }
}

impl App {
    /// Switches to the preferences that were picked, where they changed. Tells whether
    /// they did, and whether the theme is another.
    pub fn pick_settings(&mut self, picked: Settings) -> (r: (bool, bool))
        ensures
            r.0 == (picked@ != old(self)@.config.settings),
            r.1 == (picked@.theme != old(self)@.config.settings.theme),
            final(self)@ == if r.0 {
                old(self)@.configured(ConfigModel { settings: picked@, ..old(self)@.config })
            } else {
                old(self)@
            },
            final(self)@ == old(self)@.settings_picked(picked@),
            r.0 == picks(old(self)@.config.settings, picked@),
            r.1 == crate::session::theme_changes(
                old(self)@.config,
                ConfigModel { settings: picked@, ..old(self)@.config },
            ),
    {
        if picked.same(&self.config.settings) {
            return (false, false);
        }
        let mut config = self.config.duplicate();
        config.settings = picked;
        assert(config@ =~= (ConfigModel { settings: picked@, ..self@.config }));
        let theme = self.apply_config(config);
        (true, theme)
    }

    /// Switches to a config typed in the settings. Tells whether the theme is another.
    pub fn apply_typed(&mut self, config: Config) -> (theme: bool)
        ensures
            final(self)@ == old(self)@.config_typed(config@),
            theme == (config@.settings.theme != old(self)@.config.settings.theme),
            theme == crate::session::theme_changes(old(self)@.config, config@),
    {
        let theme = self.apply_config(config);
        self.config_writable = !self.read_only;
        theme
    }

    /// Closes the settings.
    pub fn close_settings(&mut self)
        ensures
            final(self)@ == (AppModel {
                settings_dialog: false,
                focus_terminal: true,
                ..old(self)@
            }),
            final(self)@ == old(self)@.settings_closed(),
    {
        self.settings_dialog = false;
        self.focus_terminal = true;
    }

    /// The hosts that were imported.
    pub fn imported(&self) -> (r: Vec<u128>)
        ensures
            r@ == imported_ids(self@.config.ssh),
    {
        let ghost all = self@.config.ssh;
        let mut r: Vec<u128> = Vec::new();
        let mut i: usize = 0;
        assert(all.take(0) =~= Seq::empty());
        while i < self.config.ssh.len()
            invariant
                i <= self.config.ssh@.len(),
                all == models(self.config.ssh@),
                r@ == imported_ids(all.take(i as int)),
            decreases self.config.ssh.len() - i,
        {
            proof {
                assert(all.take(i + 1).drop_last() =~= all.take(i as int));
                assert(all.take(i + 1).last() == self.config.ssh@[i as int]@);
            }
            if self.config.ssh[i].imported {
                r.push(self.config.ssh[i].id);
            }
            i += 1;
        }
        assert(all.take(i as int) =~= all);
        r
    }

    /// Deletes the hosts that were imported. Gives their ids: their passwords are to be
    /// deleted from the keychain.
    pub fn delete_imported(&mut self) -> (ids: Vec<u128>)
        ensures
            ids@ == imported_ids(old(self)@.config.ssh),
            final(self)@ == old(self)@.without_hosts(imported_ids(old(self)@.config.ssh)),
    {
        let ghost m = self@;
        let ids = self.imported();
        let mut i: usize = 0;
        assert(ids@.take(0) =~= Seq::empty());
        while i < ids.len()
            invariant
                i <= ids@.len(),
                self@ == m.without_hosts(ids@.take(i as int)),
            decreases ids.len() - i,
        {
            assert(ids@.take(i + 1).drop_last() =~= ids@.take(i as int));
            self.delete_host(ids[i]);
            i += 1;
        }
        assert(ids@.take(i as int) =~= ids@);
        ids
    }
}

proof fn lemma_without_hosts(m: AppModel, ids: Seq<u128>, h: SshHostModel)
    ensures
        m.without_hosts(ids).config.ssh.contains(h) == (m.config.ssh.contains(h) && !ids.contains(
            h.id,
        )),
    decreases ids.len(),
{
    if ids.len() > 0 {
        let front = ids.drop_last();
        let last = ids.last();
        lemma_without_hosts(m, front, h);
        let before = m.without_hosts(front).config.ssh;
        let after = before.filter(other_host(last));
        assert(after.contains(h) == (before.contains(h) && h.id != last)) by {
            broadcast use vstd::seq_lib::group_filter_ensures;

            if after.contains(h) {
                let k = choose|k: int| 0 <= k < after.len() && after[k] == h;
                before.lemma_filter_contains_rev(other_host(last), h);
                assert(other_host(last)(after[k]));
            }
            if before.contains(h) && h.id != last {
                let k = choose|k: int| 0 <= k < before.len() && before[k] == h;
                before.lemma_filter_contains(other_host(last), k);
            }
        }
        assert(ids.contains(h.id) == (front.contains(h.id) || h.id == last)) by {
            if front.contains(h.id) {
                let k = choose|k: int| 0 <= k < front.len() && front[k] == h.id;
                assert(ids[k] == h.id);
            }
            if h.id == last {
                assert(ids[ids.len() - 1] == h.id);
            }
            if ids.contains(h.id) && h.id != last {
                let k = choose|k: int| 0 <= k < ids.len() && ids[k] == h.id;
                assert(front[k] == h.id);
            }
        }
    }
}

proof fn lemma_imported(ssh: Seq<SshHostModel>, i: int)
    requires
        0 <= i < ssh.len(),
        ssh[i].imported,
    ensures
        imported_ids(ssh).contains(ssh[i].id),
    decreases ssh.len(),
{
    let front = ssh.drop_last();
    let ids = imported_ids(ssh);
    if i == ssh.len() - 1 {
        assert(ids[ids.len() - 1] == ssh[i].id);
    } else {
        lemma_imported(front, i);
        assert(front[i] == ssh[i]);
        let rest = imported_ids(front);
        let k = choose|k: int| 0 <= k < rest.len() && rest[k] == ssh[i].id;
        assert(ids[k] == ssh[i].id);
    }
}

/// Deleting the imported hosts leaves none of them.
pub proof fn law_imported_gone(m: AppModel, i: int)
    requires
        0 <= i < m.without_hosts(imported_ids(m.config.ssh)).config.ssh.len(),
    ensures
        !m.without_hosts(imported_ids(m.config.ssh)).config.ssh[i].imported,
{
    let ids = imported_ids(m.config.ssh);
    let after = m.without_hosts(ids).config.ssh;
    let h = after[i];
    assert(after.contains(h));
    lemma_without_hosts(m, ids, h);
    if h.imported {
        let k = choose|k: int| 0 <= k < m.config.ssh.len() && m.config.ssh[k] == h;
        lemma_imported(m.config.ssh, k);
    }
}

impl ConfigEditorModel {
    /// With the text of the config again.
    pub open spec fn reverted(self, current: Seq<char>) -> ConfigEditorModel {
        if self.dirty() {
            ConfigEditorModel::fresh(current)
        } else {
            self
        }
    }

    /// With an error shown.
    pub open spec fn refused(self, error: Seq<char>) -> ConfigEditorModel {
        ConfigEditorModel { error: Some(error), ..self }
    }
}

impl AppModel {
    /// With the settings that were picked.
    pub open spec fn settings_picked(self, picked: SettingsModel) -> AppModel {
        if picked != self.config.settings {
            self.configured(ConfigModel { settings: picked, ..self.config })
        } else {
            self
        }
    }

    /// With the settings closed.
    pub open spec fn settings_closed(self) -> AppModel {
        AppModel { settings_dialog: false, focus_terminal: true, ..self }
    }
}

/// Whether settings were picked that are not in force.
pub open spec fn picks(before: SettingsModel, picked: SettingsModel) -> bool {
    picked != before
}

} // verus!
