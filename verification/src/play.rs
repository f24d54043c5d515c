//! The decisions on the way from a request to a running game: which map is
//! meant, where a map comes from, whether a folder is unpacked again, and
//! what the game opens with.

use crate::catalog::{copy_map, GameMap};
use crate::split::{fields, fields_of, Separator};
use crate::text::{chars_of, has_suffix, same_chars, string_of, vec_views};
use vstd::prelude::*;

verus! {

/// The scheme of the absolute URL that `text` is, in lower case and
/// without the colon, as the `url` crate reads it; `None` where `text` is
/// no absolute URL.
pub uninterp spec fn scheme_of(text: Seq<char>) -> Option<Seq<char>>;

/// `reqwest::Url::parse` and `Url::scheme`: the scheme of the URL that
/// `text` is, or `None` where `parse` fails.
#[verifier::external_body]
fn url_scheme(text: &str) -> (r: Option<String>)
    ensures
        match r {
            Some(scheme) => scheme_of(text@) == Some(scheme@),
            None => scheme_of(text@) is None,
        },
{
    reqwest::Url::parse(text).ok().map(|url| url.scheme().to_string())
}

/// What a search leaves to do.
#[derive(Debug)]
pub enum Selection {
    /// Nothing was found.
    Nothing,
    /// One map was found: the player confirms it or not.
    Confirm(GameMap),
    /// Several maps were found: the player picks one.
    Choose(Vec<GameMap>),
}

/// Decides what a search leaves to do, from what it found.
pub fn select_map(found: Option<Vec<GameMap>>) -> (r: Selection)
    ensures
        match found {
            None => r is Nothing,
            Some(maps) => if maps.len() == 0 {
                r is Nothing
            } else if maps.len() == 1 {
                r matches Selection::Confirm(map) && map@ == maps[0]@
            } else {
                r matches Selection::Choose(list) && list == maps
            },
        },
{
    match found {
        None => Selection::Nothing,
        Some(maps) => {
            if maps.len() == 0 {
                Selection::Nothing
            } else if maps.len() == 1 {
                Selection::Confirm(copy_map(&maps[0]))
            } else {
                Selection::Choose(maps)
            }
        },
    }
}

/// What to do with an archive whose folder may exist already.
#[derive(Debug, Clone, Copy, PartialEq, Eq, Structural)]
pub enum InstallStep {
    /// Unpack the archive.
    Extract,
    /// Ask the player whether the folder is to be overwritten.
    Ask,
    /// Leave the folder as it is.
    Keep,
}

/// Decides what to do with an archive: unpack it where its folder does not
/// exist; otherwise ask, where asking is wanted, or keep the folder.
pub fn install_map_from_path(folder_exists: bool, overwrite_ask: bool) -> (step: InstallStep)
    ensures
        step == if !folder_exists {
            InstallStep::Extract
        } else if overwrite_ask {
            InstallStep::Ask
        } else {
            InstallStep::Keep
        },
{
    if !folder_exists {
        InstallStep::Extract
    } else if overwrite_ask {
        InstallStep::Ask
    } else {
        InstallStep::Keep
    }
}

/// Decides what to do once the player has answered whether the folder is
/// to be overwritten.
pub fn after_answer(overwrite: bool) -> (step: InstallStep)
    ensures
        step == if overwrite {
            InstallStep::Extract
        } else {
            InstallStep::Keep
        },
{
    if overwrite {
        InstallStep::Extract
    } else {
        InstallStep::Keep
    }
}

/// What the game opens with.
#[derive(Debug)]
pub enum QuickPlay {
    /// The title screen.
    Menu,
    /// The saved world of this name.
    Singleplayer(String),
    /// The server at this address.
    Multiplayer(String),
}

/// Decides what the game opens with: the map where one is given, else the
/// server where one is given; an empty name or address counts for nothing,
/// and a map that is given keeps the server from being looked at.
pub fn quick_play(map: Option<&str>, server: Option<&str>) -> (r: QuickPlay)
    ensures
        match map {
            Some(name) => if name@.len() > 0 {
                r matches QuickPlay::Singleplayer(world) && world@ == name@
            } else {
                r is Menu
            },
            None => match server {
                Some(address) => if address@.len() > 0 {
                    r matches QuickPlay::Multiplayer(host) && host@ == address@
                } else {
                    r is Menu
                },
                None => r is Menu,
            },
        },
{
    match map {
        Some(name) => {
            let chars = chars_of(name);
            if chars.len() > 0 {
                QuickPlay::Singleplayer(string_of(&chars))
            } else {
                QuickPlay::Menu
            }
        },
        None => match server {
            Some(address) => {
                let chars = chars_of(address);
                if chars.len() > 0 {
                    QuickPlay::Multiplayer(string_of(&chars))
                } else {
                    QuickPlay::Menu
                }
            },
            None => QuickPlay::Menu,
        },
    }
}

/// Where a map to open comes from.
#[derive(Debug, Clone, Copy, PartialEq, Eq, Structural)]
pub enum ImportKind {
    /// An address to download from.
    Download,
    /// An address of a scheme other than `https`.
    NotHttps,
    /// A zip archive on disk.
    Archive,
    /// A folder on disk.
    Folder,
    /// Nothing that can be opened.
    Invalid,
}

/// Whether the last component of `path` is something followed by `.zip`.
pub open spec fn names_archive(path: Seq<char>) -> bool {
    let parts = fields(path, Separator::Path);
    parts.len() > 0 && ".zip"@.is_suffix_of(parts.last()) && parts.last().len() > ".zip"@.len()
}

/// Where a map to open comes from, given the scheme that was read in `path`.
pub open spec fn import_kind_of(scheme: Option<Seq<char>>, path: Seq<char>, is_dir: bool)
    -> ImportKind {
    match scheme {
        Some(s) => if s == "https"@ {
            ImportKind::Download
        } else {
            ImportKind::NotHttps
        },
        None => if names_archive(path) {
            ImportKind::Archive
        } else if is_dir {
            ImportKind::Folder
        } else {
            ImportKind::Invalid
        },
    }
}

/// Tells where a map to open comes from. `scheme` is the scheme of the URL
/// that `path` is, `None` where it is none; `is_dir` says whether `path`
/// names a folder on disk.
pub fn classify_import(scheme: Option<&str>, path: &str, is_dir: bool) -> (kind: ImportKind)
    ensures
        kind == import_kind_of(
            match scheme {
                Some(s) => Some(s@),
                None => None,
            },
            path@,
            is_dir,
        ),
{
    match scheme {
        Some(s) => {
            if same_chars(&chars_of(s), &chars_of("https")) {
                ImportKind::Download
            } else {
                ImportKind::NotHttps
            }
        },
        None => {
            let parts = fields_of(&chars_of(path), Separator::Path);
            let extension = chars_of(".zip");
            proof {
                assert(vec_views(parts@).len() == parts@.len());
                if parts.len() > 0 {
                    assert(vec_views(parts@).last() == parts@[parts.len() - 1]@);
                }
            }
            if parts.len() > 0 && has_suffix(&parts[parts.len() - 1], &extension)
                && parts[parts.len() - 1].len() > extension.len() {
                ImportKind::Archive
            } else if is_dir {
                ImportKind::Folder
            } else {
                ImportKind::Invalid
            }
        },
    }
}

/// Tells where a map to open comes from: an address where `path` is an
/// absolute URL, else an archive where its name ends in `.zip`, else a
/// folder where `is_dir` says so.
pub fn import_kind(path: &str, is_dir: bool) -> (kind: ImportKind)
    ensures
        kind == import_kind_of(scheme_of(path@), path@, is_dir),
{
    match url_scheme(path) {
        Some(scheme) => classify_import(Some(scheme.as_str()), path, is_dir),
        None => classify_import(None, path, is_dir),
    }
}

} // verus!
