//! The loader versions that the Fabric catalog offers for a game version.

use crate::text::{append_chars, chars_of, string_of};
use vstd::prelude::*;

verus! {

/// One loader release.
#[derive(Debug)]
pub struct FabricVersionId {
    /// The loader's version.
    pub version: String,
    /// Whether the release is marked stable.
    pub stable: bool,
}

/// One entry of the loader catalog.
#[derive(Debug)]
pub struct FabricVersion {
    /// The loader release that the entry is about.
    pub loader: FabricVersionId,
}

/// What a catalog entry holds, as plain values: the loader's version and
/// whether it is stable.
pub open spec fn loader_view(entry: FabricVersion) -> (Seq<char>, bool) {
    (entry.loader.version@, entry.loader.stable)
}

/// The views of a sequence of catalog entries.
pub open spec fn loader_views(entries: Seq<FabricVersion>) -> Seq<(Seq<char>, bool)> {
    entries.map_values(|entry: FabricVersion| loader_view(entry))
}

/// The stable entries among the first `upto`, in order.
pub open spec fn stable_among(entries: Seq<(Seq<char>, bool)>, upto: int) -> Seq<
    (Seq<char>, bool),
>
    decreases upto,
{
    if upto <= 0 {
        Seq::<(Seq<char>, bool)>::empty()
    } else if entries[upto - 1].1 {
        stable_among(entries, upto - 1).push(entries[upto - 1])
    } else {
        stable_among(entries, upto - 1)
    }
}

/// The address of the loader catalog for the game version `version`.
pub open spec fn loader_catalog_url(version: Seq<char>) -> Seq<char> {
    "https://meta.fabricmc.net/v2/versions/loader/"@ + version
}

/// Builds the address of the loader catalog for the game version `version`.
pub fn fabric_url(version: &str) -> (url: String)
    ensures
        url@ == loader_catalog_url(version@),
{
    let mut url = chars_of("https://meta.fabricmc.net/v2/versions/loader/");
    append_chars(&mut url, &chars_of(version));
    string_of(&url)
}

/// Keeps the stable entries of the loader catalog, in their order.
pub fn stable_loaders(entries: &Vec<FabricVersion>) -> (stable: Vec<FabricVersion>)
    ensures
        loader_views(stable@) == stable_among(loader_views(entries@), entries.len() as int),
{
    let mut stable: Vec<FabricVersion> = Vec::new();
    let mut i: usize = 0;
    proof {
        assert(loader_views(stable@) =~= Seq::<(Seq<char>, bool)>::empty());
    }
    while i < entries.len()
        invariant
            i <= entries.len(),
            loader_views(stable@) == stable_among(loader_views(entries@), i as int),
        decreases entries.len() - i,
    {
        proof {
            assert(loader_views(entries@)[i as int] == loader_view(entries@[i as int]));
        }
        if entries[i].loader.stable {
            let copy = FabricVersion {
                loader: FabricVersionId {
                    version: entries[i].loader.version.clone(),
                    stable: entries[i].loader.stable,
                },
            };
            proof {
                assert(loader_views(stable@.push(copy)) == loader_views(stable@).push(
                    loader_view(copy),
                ));
            }
            stable.push(copy);
        }
        i += 1;
    }
    stable
}

/// The loader version to launch with: that of the first entry.
pub fn first_loader(entries: &Vec<FabricVersion>) -> (version: Option<String>)
    ensures
        match version {
            Some(v) => entries.len() > 0 && v@ == entries[0].loader.version@,
            None => entries.len() == 0,
        },
{
    if entries.len() > 0 {
        Some(entries[0].loader.version.clone())
    } else {
        None
    }
}

} // verus!
