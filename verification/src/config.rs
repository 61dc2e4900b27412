//! Where the settings live.
//!
//! Settings live next to the executable, so that a portable copy carries its
//! own. Where that directory cannot be written they live in the user's home.

use vstd::prelude::*;

use crate::text::blank;

verus! {

/// The directory that the settings file is in.
#[derive(Debug, Clone, Copy, PartialEq, Eq, Structural)]
pub enum CfgPlace {
    /// the directory of the executable
    ExeDir,
    /// a directory of its own in the user's home
    Home,
    /// the working directory
    Here,
}

/// The path that settings are read from and written to: the one that was
/// given, or `None` for the default one, where none or a blank one was.
pub fn resolve_cfg(path: Option<String>) -> (r: Option<String>)
    ensures
        r == match path {
            Some(p) => if crate::text::is_blank(p@) {
                None
            } else {
                Some(p)
            },
            None => None,
        },
{
    match path {
        Some(p) => if blank(p.as_str()) {
            None
        } else {
            Some(p)
        },
        None => None,
    }
}

/// The name of the file that is written to see whether a directory can be.
pub fn probe_name() -> (name: &'static str)
    ensures
        name@ == ".wireline_write_test"@,
{
    ".wireline_write_test"
}

/// Where the default settings file is. `probe` says whether the directory of
/// the executable could be written, if there is one; `home` whether the user
/// has a home.
pub fn default_cfg_path(probe: Option<bool>, home: bool) -> (place: CfgPlace)
    ensures
        place == (if probe == Some(true) {
            CfgPlace::ExeDir
        } else if home {
            CfgPlace::Home
        } else {
            CfgPlace::Here
        }),
{
    match probe {
        Some(true) => CfgPlace::ExeDir,
        _ => if home {
            CfgPlace::Home
        } else {
            CfgPlace::Here
        },
    }
}

/// The names that lead from the directory of a place to the settings file.
pub open spec fn cfg_parts_of(place: CfgPlace) -> Seq<Seq<char>> {
    match place {
        CfgPlace::Home => seq![".wireline"@, "wireline.config.json"@],
        _ => seq!["wireline.config.json"@],
    }
}

/// The names that lead from the directory of `place` to the settings file.
pub fn cfg_parts(place: CfgPlace) -> (parts: Vec<&'static str>)
    ensures
        parts@.map_values(|s: &'static str| s@) == cfg_parts_of(place),
{
    let mut parts: Vec<&'static str> = Vec::new();
    if place == CfgPlace::Home {
        parts.push(".wireline");
    }
    parts.push("wireline.config.json");
    assert(parts@.map_values(|s: &'static str| s@) =~= cfg_parts_of(place));
    parts
}

} // verus!
