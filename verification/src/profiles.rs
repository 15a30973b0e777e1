//! Profiles: renaming, recoloring and deleting them.

use crate::app::{not_of, App, AppModel};
use crate::color::Color;
use crate::config::{ConfigModel, Profile, ProfileModel, SessionTab, TabStateModel};
use crate::find::{find_profile, profile_place};
use crate::model::{lemma_push, lemma_update, models, Duplicate};
use crate::strings::Strings;
use crate::tab::TabModel;
use crate::text::{same_str, to_chars, trim_str, trimmed};
use vstd::prelude::*;

verus! {

broadcast use vstd::std_specs::hash::group_hash_axioms;

/// Being another profile.
pub open spec fn other_profile(id: u128) -> spec_fn(ProfileModel) -> bool {
    |p: ProfileModel| p.id != id
}

/// A tab that was of a profile that is deleted.
pub open spec fn tab_without(t: TabModel, id: u128) -> TabModel {
    if t.profile == Some(id) {
        TabModel { profile: None, ..t }
    } else {
        t
    }
}

/// A tab with a name, if it is of a profile.
pub open spec fn tab_named(t: TabModel, id: u128, name: Seq<char>) -> TabModel {
    if t.profile == Some(id) {
        TabModel { name: Some(name), ..t }
    } else {
        t
    }
}

/// A tab with a color, if it is of a profile.
pub open spec fn tab_colored(t: TabModel, id: u128, color: Option<Color>) -> TabModel {
    if t.profile == Some(id) {
        TabModel { color, ..t }
    } else {
        t
    }
}

/// Whether a profile other than one has a name.
pub open spec fn name_used(profiles: Seq<ProfileModel>, id: Option<u128>, name: Seq<char>) -> bool {
    exists|i: int|
        0 <= i < profiles.len() && Some((#[trigger] profiles[i]).id) != id && profiles[i].tab.name
            == Some(name)
}

/// The profiles, with one changed.
pub open spec fn profile_set(
    profiles: Seq<ProfileModel>,
    id: u128,
    tab: TabStateModel,
) -> Seq<ProfileModel> {
    let i = profile_place(profiles, id);
    if i < profiles.len() {
        profiles.update(i, ProfileModel { tab, ..profiles[i] })
    } else {
        profiles
    }
}

impl AppModel {
    /// Without a profile; its tab stays, as a plain one.
    pub open spec fn without_profile(self, id: u128) -> AppModel {
        AppModel {
            config: ConfigModel {
                profiles: self.config.profiles.filter(other_profile(id)),
                ..self.config
            },
            closed: self.closed.filter(not_of(Some(id))),
            tabs: self.tabs.map_values(|t: TabModel| tab_without(t, id)),
            ..self
        }
    }

    /// With a profile, and its tab, of another name.
    pub open spec fn renaming_profile(self, id: u128, name: Seq<char>) -> AppModel {
        let p = self.config.profiles[profile_place(self.config.profiles, id)];
        AppModel {
            config: ConfigModel {
                profiles: profile_set(
                    self.config.profiles,
                    id,
                    TabStateModel { name: Some(name), ..p.tab },
                ),
                ..self.config
            },
            tabs: self.tabs.map_values(|t: TabModel| tab_named(t, id, name)),
            ..self
        }
    }

    /// With a profile, and its tab, of another color.
    pub open spec fn coloring_profile(self, id: u128, color: Option<Color>) -> AppModel {
        let p = self.config.profiles[profile_place(self.config.profiles, id)];
        AppModel {
            config: ConfigModel {
                profiles: profile_set(
                    self.config.profiles,
                    id,
                    TabStateModel { color, ..p.tab },
                ),
                ..self.config
            },
            tabs: self.tabs.map_values(|t: TabModel| tab_colored(t, id, color)),
            ..self
        }
    }
}

/// Whether a profile other than one has a name.
pub fn name_in_use(profiles: &Vec<Profile>, id: Option<u128>, name: &str) -> (r: bool)
    ensures
        r == name_used(models(profiles@), id, name@),
{
    let ghost all = models(profiles@);
    let mut i: usize = 0;
    while i < profiles.len()
        invariant
            i <= profiles@.len(),
            all == models(profiles@),
            forall|j: int|
                0 <= j < i ==> !(Some((#[trigger] all[j]).id) != id && all[j].tab.name == Some(
                    name@,
                )),
        decreases profiles.len() - i,
    {
        assert(all[i as int] == profiles@[i as int]@);
        if Some(profiles[i].id) != id {
            if let Some(n) = &profiles[i].tab.name {
                if same_str(n.as_str(), name) {
                    return true;
                }
            }
        }
        i += 1;
    }
    false
}

impl App {
    /// Deletes a profile; its tab stays, as a plain one.
    pub fn delete_profile(&mut self, id: u128)
        ensures
            final(self)@ == old(self)@.without_profile(id),
    {
        let ghost m = self@;
        let mut kept: Vec<Profile> = Vec::new();
        let mut i: usize = 0;
        let ghost p = other_profile(id);
        proof {
            reveal(Seq::filter);
            assert(models(kept@) =~= m.config.profiles.take(0).filter(p));
        }
        while i < self.config.profiles.len()
            invariant
                i <= self.config.profiles@.len(),
                self@ == m,
                p == other_profile(id),
                models(kept@) == m.config.profiles.take(i as int).filter(p),
            decreases self.config.profiles.len() - i,
        {
            proof {
                reveal(Seq::filter);
                assert(m.config.profiles.take(i + 1).drop_last() =~= m.config.profiles.take(
                    i as int,
                ));
                assert(m.config.profiles[i as int] == self.config.profiles@[i as int]@);
            }
            if self.config.profiles[i].id != id {
                let ghost before = kept@;
                let c = self.config.profiles[i].duplicate();
                kept.push(c);
                proof {
                    lemma_push(before, c);
                }
            }
            i += 1;
        }
        assert(m.config.profiles.take(i as int) =~= m.config.profiles);
        self.config.profiles = kept;
        self.closed = closed_without(&self.closed, id);
        let ghost half = self@;
        i = 0;
        while i < self.tabs.len()
            invariant
                i <= self.tabs@.len(),
                self.tabs@.len() == m.tabs.len(),
                half.tabs == m.tabs,
                forall|j: int|
                    0 <= j < i ==> (#[trigger] self.tabs@[j])@ == tab_without(m.tabs[j], id),
                forall|j: int| i <= j < m.tabs.len() ==> (#[trigger] self.tabs@[j])@ == m.tabs[j],
                self@ == (AppModel { tabs: self@.tabs, ..half }),
            decreases self.tabs.len() - i,
        {
            if self.tabs[i].profile == Some(id) {
                self.tabs[i].profile = None;
            }
            assert(self.tabs@[i as int]@ =~= tab_without(m.tabs[i as int], id));
            i += 1;
        }
        assert(self@.tabs =~= m.tabs.map_values(|t: TabModel| tab_without(t, id)));
        assert(self@ =~= m.without_profile(id));
    }

    fn name_tabs(&mut self, id: u128, name: &str)
        ensures
            final(self)@ == (AppModel {
                tabs: old(self)@.tabs.map_values(|t: TabModel| tab_named(t, id, name@)),
                ..old(self)@
            }),
    {
        let ghost m = self@;
        let mut i: usize = 0;
        while i < self.tabs.len()
            invariant
                i <= self.tabs@.len(),
                self.tabs@.len() == m.tabs.len(),
                forall|j: int|
                    0 <= j < i ==> (#[trigger] self.tabs@[j])@ == tab_named(m.tabs[j], id, name@),
                forall|j: int| i <= j < m.tabs.len() ==> (#[trigger] self.tabs@[j])@ == m.tabs[j],
                self@ == (AppModel { tabs: self@.tabs, ..m }),
            decreases self.tabs.len() - i,
        {
            if self.tabs[i].profile == Some(id) {
                self.tabs[i].name = Some(name.to_owned());
            }
            assert(self.tabs@[i as int]@ =~= tab_named(m.tabs[i as int], id, name@));
            i += 1;
        }
        assert(self@.tabs =~= m.tabs.map_values(|t: TabModel| tab_named(t, id, name@)));
    }

    /// Renames a profile (and its open tab). Refused when empty or used by another profile.
    pub fn rename_profile(&mut self, id: u128, name: &str, t: &Strings) -> (r: Result<
        (),
        &'static str,
    >)
        ensures
            ({
                let to = trimmed(name@);
                if to.len() == 0 {
                    r == Err::<(), &'static str>(t.host_required) && final(self)@ == old(self)@
                } else if name_used(old(self)@.config.profiles, Some(id), to) {
                    r == Err::<(), &'static str>(t.name_taken) && final(self)@ == old(self)@
                } else {
                    r is Ok && final(self)@ == old(self)@.renaming_profile(id, to)
                }
            }),
    {
        let to = trim_str(name);
        if to_chars(to.as_str()).len() == 0 {
            return Err(t.host_required);
        }
        if name_in_use(&self.config.profiles, Some(id), to.as_str()) {
            return Err(t.name_taken);
        }
        let ghost m = self@;
        let i = find_profile(&self.config.profiles, id);
        if i < self.config.profiles.len() {
            let ghost before = self.config.profiles@;
            self.config.profiles[i].tab.name = Some(to.clone());
            proof {
                assert(self.config.profiles@ =~= before.update(
                    i as int,
                    self.config.profiles@[i as int],
                ));
                lemma_update(before, i as int, self.config.profiles@[i as int]);
            }
        }
        self.name_tabs(id, to.as_str());
        assert(self@ =~= m.renaming_profile(id, to@));
        Ok(())
    }

    fn color_tabs(&mut self, id: u128, color: Option<Color>)
        ensures
            final(self)@ == (AppModel {
                tabs: old(self)@.tabs.map_values(|t: TabModel| tab_colored(t, id, color)),
                ..old(self)@
            }),
    {
        let ghost m = self@;
        let mut i: usize = 0;
        while i < self.tabs.len()
            invariant
                i <= self.tabs@.len(),
                self.tabs@.len() == m.tabs.len(),
                forall|j: int|
                    0 <= j < i ==> (#[trigger] self.tabs@[j])@ == tab_colored(m.tabs[j], id, color),
                forall|j: int| i <= j < m.tabs.len() ==> (#[trigger] self.tabs@[j])@ == m.tabs[j],
                self@ == (AppModel { tabs: self@.tabs, ..m }),
            decreases self.tabs.len() - i,
        {
            if self.tabs[i].profile == Some(id) {
                self.tabs[i].color = color;
            }
            assert(self.tabs@[i as int]@ =~= tab_colored(m.tabs[i as int], id, color));
            i += 1;
        }
        assert(self@.tabs =~= m.tabs.map_values(|t: TabModel| tab_colored(t, id, color)));
    }

    /// Recolors a profile (and its open tab).
    pub fn set_profile_color(&mut self, id: u128, color: Option<Color>)
        ensures
            final(self)@ == old(self)@.coloring_profile(id, color),
    {
        let ghost m = self@;
        let i = find_profile(&self.config.profiles, id);
        if i < self.config.profiles.len() {
            let ghost before = self.config.profiles@;
            self.config.profiles[i].tab.color = color;
            proof {
                assert(self.config.profiles@ =~= before.update(
                    i as int,
                    self.config.profiles@[i as int],
                ));
                lemma_update(before, i as int, self.config.profiles@[i as int]);
            }
        }
        self.color_tabs(id, color);
        assert(self@ =~= m.coloring_profile(id, color));
    }
}

fn closed_without(closed: &Vec<SessionTab>, id: u128) -> (r: Vec<SessionTab>)
    ensures
        models(r@) == models(closed@).filter(not_of(Some(id))),
{
    let ghost all = models(closed@);
    let ghost p = not_of(Some(id));
    let mut r: Vec<SessionTab> = Vec::new();
    let mut i: usize = 0;
    proof {
        reveal(Seq::filter);
        assert(models(r@) =~= all.take(0).filter(p));
    }
    while i < closed.len()
        invariant
            i <= closed@.len(),
            all == models(closed@),
            p == not_of(Some(id)),
            models(r@) == all.take(i as int).filter(p),
        decreases closed.len() - i,
    {
        proof {
            reveal(Seq::filter);
            assert(all.take(i + 1).drop_last() =~= all.take(i as int));
        }
        if closed[i].profile != Some(id) {
            let ghost before = r@;
            let c = closed[i].duplicate();
            r.push(c);
            proof {
                lemma_push(before, c);
            }
        }
        i += 1;
    }
    assert(all.take(i as int) =~= all);
    r
}

/// Names stay apart: renaming a profile to a name that it may take gives no two
/// profiles that name.
pub proof fn law_names_apart(m: AppModel, id: u128, name: Seq<char>, i: int, j: int)
    requires
        !name_used(m.config.profiles, Some(id), name),
        0 <= i < j < m.config.profiles.len(),
        m.config.profiles[i].id != m.config.profiles[j].id,
        m.config.profiles[i].tab.name != m.config.profiles[j].tab.name || m.config.profiles[i].tab.name is None,
    ensures
        ({
            let after = m.renaming_profile(id, name).config.profiles;
            after[i].tab.name is Some ==> after[i].tab.name != after[j].tab.name
        }),
{
    crate::ids::lemma_place(crate::arrange::profile_ids(m.config.profiles), id);
    let p = profile_place(m.config.profiles, id);
    if p < m.config.profiles.len() {
        assert(crate::arrange::profile_ids(m.config.profiles)[p] == m.config.profiles[p].id);
        assert(m.config.profiles[i].id != id ==> m.config.profiles[i].tab.name != Some(name));
        assert(m.config.profiles[j].id != id ==> m.config.profiles[j].tab.name != Some(name));
    }
}

} // verus!
