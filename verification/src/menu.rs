//! The macOS menu bar: what its items show and what clicking them does.

use crate::text::{same_str, views};
use vstd::prelude::*;

verus! {

#[derive(Clone, Copy, PartialEq, Eq, Structural, Debug)]
pub enum MenuAction {
    Settings,
    Reload,
    Quit,
}

/// The items of the menu bar, each by the id that its clicks carry.
pub struct MenuItems {
    pub settings: String,
    pub reload: String,
    pub quit: String,
}

/// What clicking an item does, if it is one of ours.
pub open spec fn clicked(items: MenuItems, id: Seq<char>) -> Option<MenuAction> {
    if id == items.settings@ {
        Some(MenuAction::Settings)
    } else if id == items.reload@ {
        Some(MenuAction::Reload)
    } else if id == items.quit@ {
        Some(MenuAction::Quit)
    } else {
        None
    }
}

/// What a list of clicks does, in order.
pub open spec fn all_clicked(items: MenuItems, ids: Seq<Seq<char>>) -> Seq<MenuAction>
    decreases ids.len(),
{
    if ids.len() == 0 {
        Seq::empty()
    } else {
        let rest = all_clicked(items, ids.drop_last());
        match clicked(items, ids.last()) {
            Some(a) => rest.push(a),
            None => rest,
        }
    }
}

impl MenuItems {
    /// The menu items clicked, given the ids of the clicks received.
    pub fn actions(&self, clicks: &Vec<String>) -> (r: Vec<MenuAction>)
        ensures
            r@ == all_clicked(*self, views(clicks@)),
    {
        let mut r: Vec<MenuAction> = Vec::new();
        let mut i: usize = 0;
        assert(views(clicks@).take(0) =~= Seq::empty());
        while i < clicks.len()
            invariant
                i <= clicks@.len(),
                r@ == all_clicked(*self, views(clicks@).take(i as int)),
            decreases clicks.len() - i,
        {
            assert(views(clicks@).take(i + 1).drop_last() =~= views(clicks@).take(i as int));
            let id = clicks[i].as_str();
            if same_str(id, &self.settings) {
                r.push(MenuAction::Settings);
            } else if same_str(id, &self.reload) {
                r.push(MenuAction::Reload);
            } else if same_str(id, &self.quit) {
                r.push(MenuAction::Quit);
            }
            i += 1;
        }
        assert(views(clicks@).take(i as int) =~= views(clicks@));
        r
    }
}

/// What the settings item shows: its text and its shortcut.
pub struct Shown {
    pub settings: String,
    pub shortcut: String,
}

impl Shown {
    /// Follows the language and the settings shortcut; tells whether the items
    /// have to be updated.
    pub fn sync(&mut self, settings: &str, shortcut: &str) -> (changed: bool)
        ensures
            changed == !(old(self).settings@ == settings@ && old(self).shortcut@ == shortcut@),
            final(self).settings@ == settings@,
            final(self).shortcut@ == shortcut@,
            changed == differs(*old(self), settings@, shortcut@),
    {
        if same_str(&self.settings, settings) && same_str(&self.shortcut, shortcut) {
            return false;
        }
        self.settings = settings.to_owned();
        self.shortcut = shortcut.to_owned();
        true
    }
}

/// Whether the menu is to be drawn again.
pub open spec fn differs(shown: Shown, settings: Seq<char>, shortcut: Seq<char>) -> bool {
    shown.settings@ != settings || shown.shortcut@ != shortcut
}

} // verus!
