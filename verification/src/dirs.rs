//! Where the config is kept: which directory, what it starts from, what is erased,
//! and how it is shown in the system's file manager.

use crate::config::{Config, ConfigModel, Profile, Settings};
use crate::files::{above, ordinary, parent_of, Side};
use crate::model::models;
use crate::paths::{is_lock, lock_name};
use crate::shortcut::Platform;
use crate::text::{begins, opt_view, views};
use vstd::prelude::*;

verus! {

/// The directories that can hold the config.
#[derive(Debug)]
pub struct Places {
    /// The one set in the environment, to run an instance with separate profiles and session.
    pub chosen: Option<String>,
    /// The published app's.
    pub official: Option<String>,
    /// Builds made locally keep their config apart, so that trying a change never touches the
    /// installed app's profiles.
    pub dev: Option<String>,
}

/// The directory that holds the config.
pub open spec fn place_of(p: Places, published: bool) -> Option<Seq<char>> {
    if p.chosen is Some {
        opt_view(p.chosen)
    } else if p.official is None {
        None
    } else if published {
        opt_view(p.official)
    } else {
        opt_view(p.dev)
    }
}

/// The directory that holds the config; `published` tells a published build.
pub fn config_dir(p: &Places, published: bool) -> (r: Option<String>)
    ensures
        opt_view(r) == place_of(*p, published),
{
    if let Some(dir) = &p.chosen {
        return Some(dir.clone());
    }
    match (&p.official, &p.dev) {
        (Some(official), dev) => {
            if published {
                Some(official.clone())
            } else {
                match dev {
                    Some(dev) => Some(dev.clone()),
                    None => None,
                }
            }
        },
        (None, _) => None,
    }
}

/// Whether a first run starts from a copy of the installed app's data.
pub fn starts_from_copy(p: &Places, published: bool, dev_exists: bool, official_is_dir: bool) -> (r:
    bool)
    ensures
        r == (p.chosen is None && !published && p.official is Some && p.dev is Some && !dev_exists
            && official_is_dir),
        r == copies_config(*p, published, dev_exists, official_is_dir),
{
    p.chosen.is_none() && !published && p.official.is_some() && p.dev.is_some() && !dev_exists
        && official_is_dir
}

/// Whether the data of the app's former name is carried over.
pub fn carries_over(exists: bool, former_is_dir: bool) -> (r: bool)
    ensures
        r == (!exists && former_is_dir),
        r == takes_former(exists, former_is_dir),
{
    !exists && former_is_dir
}

/// The names of a directory but for the lock.
pub open spec fn but_the_lock(names: Seq<Seq<char>>) -> Seq<Seq<char>>
    decreases names.len(),
{
    if names.len() == 0 {
        names
    } else {
        let rest = but_the_lock(names.drop_last());
        if names.last() == lock_name() {
            rest
        } else {
            rest.push(names.last())
        }
    }
}

/// What is erased of the config directory, and what of it is copied: everything but
/// the lock.
pub fn all_but_the_lock(names: &Vec<String>) -> (r: Vec<String>)
    ensures
        views(r@) == but_the_lock(views(names@)),
{
    let ghost all = views(names@);
    let mut r: Vec<String> = Vec::new();
    let mut i: usize = 0;
    proof {
        assert(all.take(0) =~= Seq::empty());
        assert(views(r@) =~= Seq::empty());
    }
    while i < names.len()
        invariant
            i <= names@.len(),
            all == views(names@),
            views(r@) == but_the_lock(all.take(i as int)),
        decreases names.len() - i,
    {
        assert(all.take(i + 1).drop_last() =~= all.take(i as int));
        if !is_lock(names[i].as_str()) {
            let ghost before = views(r@);
            r.push(names[i].clone());
            assert(views(r@) =~= before.push(all[i as int]));
        }
        i += 1;
    }
    assert(all.take(i as int) =~= all);
    r
}

/// Erasing leaves the lock and nothing else.
pub proof fn law_only_the_lock_stays(names: Seq<Seq<char>>, n: Seq<char>)
    ensures
        but_the_lock(names).contains(n) == (names.contains(n) && n != lock_name()),
    decreases names.len(),
{
    if names.len() > 0 {
        let front = names.drop_last();
        let last = names.last();
        law_only_the_lock_stays(front, n);
        let rest = but_the_lock(front);
        let all = but_the_lock(names);
        if front.contains(n) {
            let k = choose|k: int| 0 <= k < front.len() && front[k] == n;
            assert(names[k] == n);
        }
        if names.contains(n) && n != last {
            let k = choose|k: int| 0 <= k < names.len() && names[k] == n;
            assert(front[k] == n);
        }
        if n == last {
            assert(names[names.len() - 1] == n);
        }
        if last != lock_name() {
            if rest.contains(n) {
                let k = choose|k: int| 0 <= k < rest.len() && rest[k] == n;
                assert(all[k] == n);
            }
            if n == last {
                assert(all[all.len() - 1] == n);
            }
            if all.contains(n) && n != last {
                let k = choose|k: int| 0 <= k < all.len() && all[k] == n;
                assert(rest[k] == n);
            }
        }
    }
}

impl Config {
    /// A config made of the files used by earlier versions: settings and profiles.
    pub fn from_parts(settings: Settings, profiles: Vec<Profile>) -> (r: Config)
        ensures
            r@ == (ConfigModel { profiles: models(profiles@), ..ConfigModel::blank(settings@) }),
    {
        let r = Config {
            settings,
            profiles,
            ssh: Vec::new(),
            ungrouped: Vec::new(),
            groups: Vec::new(),
            commands: Vec::new(),
            extra: Vec::new(),
        };
        proof {
            assert(r@.ssh =~= Seq::empty());
            assert(r@.groups =~= Seq::empty());
            assert(r@.commands =~= Seq::empty());
            assert(r@.extra =~= Seq::empty());
        }
        r
    }
}

/// The program that opens a folder in the system file manager.
pub open spec fn opener(platform: Platform) -> Seq<char> {
    match platform {
        Platform::MacOs => "open"@,
        Platform::Windows => "explorer"@,
        Platform::Other => "xdg-open"@,
    }
}

/// The program that opens a folder in the system file manager.
pub fn open_folder(platform: Platform) -> (r: &'static str)
    ensures
        r@ == opener(platform),
{
    match platform {
        Platform::MacOs => "open",
        Platform::Windows => "explorer",
        Platform::Other => "xdg-open",
    }
}

/// What shows a file in the system file manager: a program and its arguments.
pub fn reveal_file(path: &str, platform: Platform) -> (r: (&'static str, Vec<String>))
    ensures
        r.0@ == opener(platform),
        platform is MacOs ==> views(r.1@) == seq!["-R"@, path@],
        platform is Windows ==> views(r.1@) == seq!["/select,"@ + path@],
        platform is Other ==> r.1@.len() == 1 && begins(path@, r.1@[0]@) && (ordinary(path@)
            ==> r.1@[0]@ == above(path@)),
        reveal_args(path@, platform) is Some ==> views(r.1@) == reveal_args(path@, platform)->0,
{
    let mut args: Vec<String> = Vec::new();
    match platform {
        Platform::MacOs => {
            args.push("-R".to_owned());
            args.push(path.to_owned());
            assert(views(args@) =~= seq!["-R"@, path@]);
        },
        Platform::Windows => {
            let mut arg = "/select,".to_owned();
            arg.push_str(path);
            args.push(arg);
            assert(views(args@) =~= seq!["/select,"@ + path@]);
        },
        Platform::Other => {
            args.push(parent_of(Side::Local, path));
        },
    }
    (open_folder(platform), args)
}

/// Whether a local build starts from a copy of the config of the published app.
pub open spec fn copies_config(
    p: Places,
    published: bool,
    dev_exists: bool,
    official_is_dir: bool,
) -> bool {
    p.chosen is None && !published && p.official is Some && p.dev is Some && !dev_exists
        && official_is_dir
}

/// Whether a former folder becomes the new one.
pub open spec fn takes_former(exists: bool, former_is_dir: bool) -> bool {
    !exists && former_is_dir
}

/// What is handed to the program that shows a file, where the system has one that marks it.
pub open spec fn reveal_args(path: Seq<char>, platform: Platform) -> Option<Seq<Seq<char>>> {
    match platform {
        Platform::MacOs => Some(seq!["-R"@, path]),
        Platform::Windows => Some(seq!["/select,"@ + path]),
        Platform::Other => None,
    }
}

} // verus!
