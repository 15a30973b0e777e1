//! Filling in the editor of an SSH host.

use crate::color::Color;
use crate::config::{SshAuth, SshHostModel};
use crate::editor::{trim_typed, typed};
use crate::hosts::{HostEditor, HostEditorModel};
use crate::session::{caused, with_cause};
use crate::strings::Strings;
use crate::text::{holds, trim_str, trimmed};
use vstd::prelude::*;

verus! {

/// The key that a host uses.
#[derive(Clone, Copy, PartialEq, Eq, Structural, Debug)]
pub enum KeyChoice {
    Nothing,
    /// One of those found in ~/.ssh.
    Known,
    /// Another file, whose path is typed.
    Other,
}

impl HostEditorModel {
    /// With another draft.
    pub open spec fn drafting(self, draft: SshHostModel) -> HostEditorModel {
        HostEditorModel { draft, ..self }
    }

    /// The key that the host uses.
    pub open spec fn key_choice(self) -> KeyChoice {
        match self.draft.identity_file {
            None => KeyChoice::Nothing,
            Some(k) => if self.keys.contains(k) {
                KeyChoice::Known
            } else {
                KeyChoice::Other
            },
        }
    }

    /// With a key file.
    pub open spec fn with_key(self, path: Seq<char>) -> HostEditorModel {
        self.drafting(SshHostModel { identity_file: Some(path), ..self.draft })
    }
}

impl HostEditor {
    /// The user name was typed; none where that is empty.
    pub fn type_user(&mut self, text: &str)
        ensures
            final(self)@ == old(self)@.drafting(
                SshHostModel { user: typed(text@), ..old(self)@.draft },
            ),
            final(self)@ == old(self)@.with_user(text@),
    {
        self.draft.user = trim_typed(text);
    }

    /// The jump host was typed; none where that is empty.
    pub fn type_jump(&mut self, text: &str)
        ensures
            final(self)@ == old(self)@.drafting(
                SshHostModel { jump: typed(text@), ..old(self)@.draft },
            ),
            final(self)@ == old(self)@.with_jump(text@),
    {
        self.draft.jump = trim_typed(text);
    }

    /// The way to authenticate was picked.
    pub fn pick_auth(&mut self, auth: SshAuth)
        ensures
            final(self)@ == old(self)@.drafting(
                SshHostModel { auth: Some(auth), ..old(self)@.draft },
            ),
            final(self)@ == old(self)@.with_auth(auth),
    {
        self.draft.auth = Some(auth);
    }

    /// The key that the host uses.
    pub fn key_choice(&self) -> (r: KeyChoice)
        ensures
            r == self@.key_choice(),
    {
        match &self.draft.identity_file {
            None => KeyChoice::Nothing,
            Some(k) => if holds(&self.keys, k.as_str()) {
                KeyChoice::Known
            } else {
                KeyChoice::Other
            },
        }
    }

    /// One of the keys found was picked.
    pub fn pick_key(&mut self, i: usize)
        requires
            i < old(self).keys@.len(),
        ensures
            final(self)@ == old(self)@.with_key(old(self)@.keys[i as int]),
    {
        self.draft.identity_file = Some(self.keys[i].clone());
    }

    /// Another key was picked: the one whose path was typed.
    pub fn pick_other_key(&mut self)
        ensures
            final(self)@ == old(self)@.with_key(trimmed(old(self)@.custom_key)),
    {
        self.draft.identity_file = Some(trim_str(self.custom_key.as_str()));
    }

    /// The path of a key was typed.
    pub fn type_key(&mut self, text: String)
        ensures
            final(self)@ == (HostEditorModel { custom_key: text@, ..old(self)@ }.with_key(
                trimmed(text@),
            )),
            final(self)@ == old(self)@.with_typed_key(text@),
    {
        self.draft.identity_file = Some(trim_str(text.as_str()));
        self.custom_key = text;
    }

    /// A file was chosen as the key; `shown` is how its path is shown.
    pub fn choose_key(&mut self, path: String, shown: String)
        ensures
            final(self)@ == (HostEditorModel {
                custom_key: if old(self)@.keys.contains(path@) {
                    old(self)@.custom_key
                } else {
                    shown@
                },
                ..old(self)@
            }.with_key(path@)),
            final(self)@ == old(self)@.with_chosen_key(path@, shown@),
    {
        if !holds(&self.keys, path.as_str()) {
            self.custom_key = shown;
        }
        self.draft.identity_file = Some(path);
    }

    /// The password was typed.
    pub fn type_password(&mut self, text: String)
        ensures
            final(self)@ == (HostEditorModel {
                password: text@,
                password_changed: true,
                ..old(self)@
            }),
            final(self)@ == old(self)@.with_typed_password(text@),
    {
        self.password = text;
        self.password_changed = true;
    }

    /// The saved password is to be forgotten.
    pub fn forget_password(&mut self)
        ensures
            final(self)@ == (HostEditorModel {
                password: Seq::empty(),
                password_changed: true,
                ..old(self)@
            }),
            final(self)@ == old(self)@.with_typed_password(Seq::empty()),
    {
        let none = String::new();
        assert(none@ =~= Seq::empty());
        self.password = none;
        self.password_changed = true;
    }

    /// The saved password was loaded, to be shown.
    pub fn show_password(&mut self, saved: Option<String>)
        ensures
            final(self)@ == (HostEditorModel {
                password: match saved {
                    Some(p) => p@,
                    None => Seq::empty(),
                },
                ..old(self)@
            }),
            final(self)@ == old(self)@.with_shown_password(crate::text::opt_view(saved)),
    {
        self.password = match saved {
            Some(p) => p,
            None => {
                let none = String::new();
                assert(none@ =~= Seq::empty());
                none
            },
        };
    }

    /// A color was clicked: it is picked, or given up where it was picked.
    pub fn toggle_color(&mut self, color: Color)
        ensures
            final(self)@ == old(self)@.drafting(
                SshHostModel {
                    color: if old(self)@.draft.color == Some(color) {
                        None
                    } else {
                        Some(color)
                    },
                    ..old(self)@.draft
                },
            ),
            final(self)@ == old(self)@.with_color_toggled(color),
    {
        self.draft.color = if self.draft.color == Some(color) {
            None
        } else {
            Some(color)
        };
    }

    /// The host was refused.
    pub fn refuse(&mut self, error: &str)
        ensures
            final(self)@ == (HostEditorModel { error: Some(error@), ..old(self)@ }),
            final(self)@ == old(self)@.with_error(error@),
    {
        self.error = Some(error.to_owned());
    }

    /// The password could not be saved.
    pub fn keychain_failed(&mut self, error: &str, t: &Strings)
        ensures
            final(self)@ == (HostEditorModel {
                error: Some(caused(t.keychain_failed@, error@)),
                ..old(self)@
            }),
            final(self)@ == old(self)@.with_error(caused(t.keychain_failed@, error@)),
    {
        self.error = Some(with_cause(t.keychain_failed, error));
    }
}

/// Whether the editor asks for a key.
pub fn asks_key(auth: SshAuth) -> (r: bool)
    ensures
        r == auth is Key,
        r == takes_key(auth),
{
    match auth {
        SshAuth::Key => true,
        _ => false,
    }
}

/// Whether the editor asks for a password: required for the "saved password" method,
/// optional with a key (servers asking for both).
pub fn asks_password(auth: SshAuth) -> (r: bool)
    ensures
        r == crate::hosts::keeps_password(auth),
{
    match auth {
        SshAuth::Password => true,
        SshAuth::Key => true,
        _ => false,
    }
}

/// A key that was typed or chosen is the one the host uses, and its path stays in
/// the field unless it is a known one.
pub proof fn law_chosen_key(e: HostEditorModel, path: Seq<char>, shown: Seq<char>)
    ensures
        ({
            let after = HostEditorModel {
                custom_key: if e.keys.contains(path) {
                    e.custom_key
                } else {
                    shown
                },
                ..e
            }.with_key(path);
            &&& after.draft.identity_file == Some(path)
            &&& after.key_choice() is Known == e.keys.contains(path)
            &&& after.key_choice() is Other ==> after.custom_key == shown
        }),
{
}

impl HostEditorModel {
    /// With the name to log in under.
    pub open spec fn with_user(self, text: Seq<char>) -> HostEditorModel {
        self.drafting(SshHostModel { user: typed(text), ..self.draft })
    }

    /// With the host to go through.
    pub open spec fn with_jump(self, text: Seq<char>) -> HostEditorModel {
        self.drafting(SshHostModel { jump: typed(text), ..self.draft })
    }

    /// With the way to log in.
    pub open spec fn with_auth(self, auth: SshAuth) -> HostEditorModel {
        self.drafting(SshHostModel { auth: Some(auth), ..self.draft })
    }

    /// With the typed path of a key.
    pub open spec fn with_typed_key(self, text: Seq<char>) -> HostEditorModel {
        HostEditorModel { custom_key: text, ..self }.with_key(trimmed(text))
    }

    /// With a key that was chosen from the disk.
    pub open spec fn with_chosen_key(self, path: Seq<char>, shown: Seq<char>) -> HostEditorModel {
        HostEditorModel {
            custom_key: if self.keys.contains(path) {
                self.custom_key
            } else {
                shown
            },
            ..self
        }.with_key(path)
    }

    /// With a typed password.
    pub open spec fn with_typed_password(self, text: Seq<char>) -> HostEditorModel {
        HostEditorModel { password: text, password_changed: true, ..self }
    }

    /// With the saved password shown.
    pub open spec fn with_shown_password(self, saved: Option<Seq<char>>) -> HostEditorModel {
        HostEditorModel {
            password: match saved {
                Some(p) => p,
                None => Seq::empty(),
            },
            ..self
        }
    }

    /// With a color, or without it where it was chosen already.
    pub open spec fn with_color_toggled(self, color: Color) -> HostEditorModel {
        self.drafting(
            SshHostModel {
                color: if self.draft.color == Some(color) {
                    None
                } else {
                    Some(color)
                },
                ..self.draft
            },
        )
    }

    /// With an error shown.
    pub open spec fn with_error(self, error: Seq<char>) -> HostEditorModel {
        HostEditorModel { error: Some(error), ..self }
    }
}

/// Whether a way to log in takes a key.
pub open spec fn takes_key(auth: SshAuth) -> bool {
    auth is Key
}

} // verus!
