//! Where the library lives, where builds go, and the defaults that go with
//! them.
//!
//! Stored as one small file whose every field may be missing: a missing or
//! unreadable file is never an error, the defaults are perfectly usable.
use vstd::prelude::*;

use crate::export::{join_path, joined_path};
use crate::text::{chars_of, string_of};

verus! {

/// Everything the user can configure.
#[derive(Debug, Clone, PartialEq, Eq)]
pub struct Settings {
    pub library_root: String,
    /// Where a build writes without asking; `None` until the user picks one.
    pub output_root: Option<String>,
    /// Pre-selected in the editor and used for batch builds.
    pub default_format: String,
    /// Put each volume in a folder named after its series.
    pub folder_per_series: bool,
    /// Cut double-page spreads into two pages.
    pub split_spreads: bool,
    /// Whether the first-run screen has been answered: "decide later" is an
    /// answer that must not prompt again on every launch.
    pub welcomed: bool,
}

/// The stored shape. Every field is optional so an older file still loads.
#[derive(Debug, Clone, PartialEq, Eq)]
pub struct Stored {
    pub library_root: Option<String>,
    pub output_root: Option<String>,
    pub default_format: Option<String>,
    pub folder_per_series: Option<bool>,
    pub split_spreads: Option<bool>,
    pub welcomed: Option<bool>,
}

impl Default for Stored {
    /// Nothing stored.
    fn default() -> (r: Stored)
        ensures
            r.library_root is None,
            r.output_root is None,
            r.default_format is None,
            r.folder_per_series is None,
            r.split_spreads is None,
            r.welcomed is None,
    {
        Stored {
            library_root: None,
            output_root: None,
            default_format: None,
            folder_per_series: None,
            split_spreads: None,
            welcomed: None,
        }
    }
}

/// The message when no home directory is known.
pub open spec fn no_home() -> Seq<char> {
    "could not find your home directory"@
}

/// `~/Mangalize`: a plain, visible folder the user can find, back up and
/// move, and the same default for every front end, so all see one
/// collection. `home` is the home directory, when one is known.
pub fn default_library_root(home: Option<&str>) -> (r: Result<String, String>)
    ensures
        match home {
            Some(h) => r matches Ok(p) && p@ == joined_path(h@, "Mangalize"@),
            None => r matches Err(e) && e@ == no_home(),
        },
{
    match home {
        Some(h) => Ok(string_of(join_path(&chars_of(h), "Mangalize").as_slice())),
        None => Err(String::from_str("could not find your home directory")),
    }
}

/// Where builds land by default, offered on first run: `~/Mangalize/Exports`.
pub fn default_output_root(home: Option<&str>) -> (r: Result<String, String>)
    ensures
        match home {
            Some(h) => r matches Ok(p) && p@ == joined_path(
                joined_path(h@, "Mangalize"@),
                "Exports"@,
            ),
            None => r matches Err(e) && e@ == no_home(),
        },
{
    match home {
        Some(h) => {
            let root = join_path(&chars_of(h), "Mangalize");
            Ok(string_of(join_path(&root, "Exports").as_slice()))
        },
        None => Err(String::from_str("could not find your home directory")),
    }
}

/// Settings as loaded from a stored file: each field as stored, or its
/// default when missing.
pub open spec fn loaded_as(stored: Stored, home: Option<Seq<char>>, s: Settings) -> bool {
    &&& s.library_root@ == match stored.library_root {
        Some(root) => root@,
        None => joined_path(home.unwrap(), "Mangalize"@),
    }
    &&& s.output_root == stored.output_root
    &&& s.default_format@ == match stored.default_format {
        Some(f) => f@,
        None => "epub"@,
    }
    &&& s.folder_per_series == match stored.folder_per_series {
        Some(b) => b,
        None => true,
    }
    &&& s.split_spreads == match stored.split_spreads {
        Some(b) => b,
        None => true,
    }
    &&& s.welcomed == match stored.welcomed {
        Some(b) => b,
        None => false,
    }
}

/// Settings as saved: every field written out.
pub open spec fn saved_as(next: Settings, stored: Stored) -> bool {
    &&& stored.library_root == Some(next.library_root)
    &&& stored.output_root == next.output_root
    &&& stored.default_format == Some(next.default_format)
    &&& stored.folder_per_series == Some(next.folder_per_series)
    &&& stored.split_spreads == Some(next.split_spreads)
    &&& stored.welcomed == Some(next.welcomed)
}

/// Settings saved and loaded again come back as they were, wherever the home
/// directory is: nothing saved is lost to a default.
pub proof fn saved_settings_load_back_unchanged(
    next: Settings,
    stored: Stored,
    home: Option<Seq<char>>,
    again: Settings,
)
    requires
        saved_as(next, stored),
        loaded_as(stored, home, again),
    ensures
        again.library_root@ == next.library_root@,
        again.output_root == next.output_root,
        again.default_format@ == next.default_format@,
        again.folder_per_series == next.folder_per_series,
        again.split_spreads == next.split_spreads,
        again.welcomed == next.welcomed,
{
}

/// The settings a stored file gives: what it holds, and for each missing
/// field its default — the library in the home directory, EPUB, a folder per
/// series, spreads split, the first-run screen still to come. A home
/// directory is needed only when no library folder is stored.
pub fn load(stored: Stored, home: Option<&str>) -> (r: Result<Settings, String>)
    ensures
        stored.library_root is None && home is None ==> (r matches Err(e) && e@ == no_home()),
        stored.library_root is Some || home is Some ==> (r matches Ok(s) && loaded_as(
            stored,
            match home {
                Some(h) => Some(h@),
                None => None,
            },
            s,
        )),
{
    let library_root = match stored.library_root {
        Some(root) => root,
        None => match default_library_root(home) {
            Ok(root) => root,
            Err(e) => return Err(e),
        },
    };
    Ok(
        Settings {
            library_root,
            output_root: stored.output_root,
            default_format: match stored.default_format {
                Some(f) => f,
                None => String::from_str("epub"),
            },
            folder_per_series: match stored.folder_per_series {
                Some(b) => b,
                None => true,
            },
            split_spreads: match stored.split_spreads {
                Some(b) => b,
                None => true,
            },
            welcomed: match stored.welcomed {
                Some(b) => b,
                None => false,
            },
        },
    )
}

/// The stored shape of settings: every field written out.
pub fn save(next: &Settings) -> (r: Stored)
    ensures
        saved_as(*next, r),
{
    Stored {
        library_root: Some(next.library_root.clone()),
        output_root: match &next.output_root {
            Some(o) => Some(o.clone()),
            None => None,
        },
        default_format: Some(next.default_format.clone()),
        folder_per_series: Some(next.folder_per_series),
        split_spreads: Some(next.split_spreads),
        welcomed: Some(next.welcomed),
    }
}

/// The library pointed at a different folder, everything else left alone.
pub fn set_library_root(settings: Settings, root: String) -> (r: Settings)
    ensures
        r == (Settings { library_root: root, ..settings }),
{
    Settings { library_root: root, ..settings }
}

} // verus!
