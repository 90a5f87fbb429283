//! Where files are, below the home folder.
//!
//! The home folder is whatever type the program around this library uses for
//! paths; only the names below it are decided here.

use vstd::prelude::*;

verus! {

/// A place below the home folder.
pub struct Place<T> {
    pub home: T,
    /// The names of the folders on the way, and of the file or folder itself.
    pub below: Vec<&'static str>,
}

/// The names on the way, as texts.
pub open spec fn names(v: Seq<&'static str>) -> Seq<Seq<char>> {
    v.map_values(|s: &'static str| s@)
}

impl<T> Place<T> {
    /// This place is `way` below `home`.
    pub open spec fn is_at(self, home: T, way: Seq<Seq<char>>) -> bool {
        self.home == home && names(self.below@) == way
    }
}

/// The home folder: the user profile where there is one, or else the home.
pub fn home_dir<T>(user_profile: Option<T>, home: Option<T>) -> (r: Option<T>)
    ensures
        r == (if user_profile is Some {
            user_profile
        } else {
            home
        }),
{
    match user_profile {
        Some(p) => Some(p),
        None => home,
    }
}

pub open spec fn usage_db_way() -> Seq<Seq<char>> {
    seq![".zcode"@, "cli"@, "db"@, "db.sqlite"@]
}

/// The usage database.
pub fn usage_db_path<T>(home: Option<T>) -> (r: Option<Place<T>>)
    ensures
        r is Some <==> home is Some,
        r is Some ==> r->0.is_at(home->0, usage_db_way()),
{
    match home {
        Some(home) => {
            let below: Vec<&'static str> = vec![".zcode", "cli", "db", "db.sqlite"];
            assert(names(below@) =~= usage_db_way());
            Some(Place { home, below })
        },
        None => None,
    }
}

pub open spec fn checkpoints_way() -> Seq<Seq<char>> {
    seq![".zcode"@, "v2"@, "checkpoints"@]
}

/// The folder of the workspace snapshots.
pub fn checkpoints_dir<T>(home: Option<T>) -> (r: Option<Place<T>>)
    ensures
        r is Some <==> home is Some,
        r is Some ==> r->0.is_at(home->0, checkpoints_way()),
{
    match home {
        Some(home) => {
            let below: Vec<&'static str> = vec![".zcode", "v2", "checkpoints"];
            assert(names(below@) =~= checkpoints_way());
            Some(Place { home, below })
        },
        None => None,
    }
}

pub open spec fn guard_file_way() -> Seq<Seq<char>> {
    seq![".zcode"@, "speed-panel-guard.json"@]
}

/// What the snapshot guard remembers.
pub fn guard_file_path<T>(home: Option<T>) -> (r: Option<Place<T>>)
    ensures
        r is Some <==> home is Some,
        r is Some ==> r->0.is_at(home->0, guard_file_way()),
{
    match home {
        Some(home) => {
            let below: Vec<&'static str> = vec![".zcode", "speed-panel-guard.json"];
            assert(names(below@) =~= guard_file_way());
            Some(Place { home, below })
        },
        None => None,
    }
}

pub open spec fn mode_file_way() -> Seq<Seq<char>> {
    seq![".zcode"@, "speed-panel-mode.txt"@]
}

/// What the window remembers.
pub fn mode_file<T>(home: Option<T>) -> (r: Option<Place<T>>)
    ensures
        r is Some <==> home is Some,
        r is Some ==> r->0.is_at(home->0, mode_file_way()),
{
    match home {
        Some(home) => {
            let below: Vec<&'static str> = vec![".zcode", "speed-panel-mode.txt"];
            assert(names(below@) =~= mode_file_way());
            Some(Place { home, below })
        },
        None => None,
    }
}

pub open spec fn debug_log_way() -> Seq<Seq<char>> {
    seq![".zcode"@, "speed-panel-debug.jsonl"@]
}

/// The debug log.
pub fn debug_log_path<T>(home: Option<T>) -> (r: Option<Place<T>>)
    ensures
        r is Some <==> home is Some,
        r is Some ==> r->0.is_at(home->0, debug_log_way()),
{
    match home {
        Some(home) => {
            let below: Vec<&'static str> = vec![".zcode", "speed-panel-debug.jsonl"];
            assert(names(below@) =~= debug_log_way());
            Some(Place { home, below })
        },
        None => None,
    }
}

} // verus!
