//! The mods that the launcher keeps up to date, and what one answer of the
//! version catalog comes to.
//!
//! The catalog answers a query for one mod and one game version with a JSON
//! array of releases. Only the first release counts, and of it the address
//! of its first file and those of its dependencies that are required and are
//! not base mods themselves.

use crate::json::{items, member_items, member_text, parse_json, json_in, Json};
use crate::text::{
    append_chars, chars_of, same_chars, string_of, string_views, trim, trimmed, vec_views,
};
use vstd::prelude::*;

verus! {

/// A mod to download: the name it is installed under and where its file is.
#[derive(Debug)]
pub struct ModDownload {
    /// The identifier that the mod was asked for by.
    pub name: String,
    /// The address of the file.
    pub url: String,
}

/// What one answer of the version catalog comes to.
#[derive(Debug)]
pub struct ModVersionData {
    /// The address of the release's first file.
    pub url: String,
    /// The identifiers of the mods that the release requires.
    pub dependencies: Vec<String>,
}

/// Why an answer of the version catalog could not be used.
#[derive(Debug, Clone, Copy, PartialEq, Eq, Structural)]
pub enum ParseError {
    /// The answer is not a JSON document.
    Malformed,
}

/// The names of the base mods: what every installation starts from.
pub open spec fn base_mod_names() -> Seq<Seq<char>> {
    seq![
        "dcwa"@,
        "fabric-api"@,
        "lithium"@,
        "iris"@,
        "modmenu"@,
        "sodium"@,
        "placeholder-api"@,
    ]
}

/// The catalog's identifiers of the base mods, in the order of their names.
pub open spec fn base_mod_ids() -> Seq<Seq<char>> {
    seq![
        "HdwRs3kc"@,
        "P7dR8mSH"@,
        "gvQqBUqZ"@,
        "YL57xq9U"@,
        "mOgUt4GM"@,
        "AANobbMI"@,
        "eXts2L7r"@,
    ]
}

/// The names of the base mods.
pub fn base_mods() -> (names: Vec<String>)
    ensures
        string_views(names@) == base_mod_names(),
{
    let mut names: Vec<String> = Vec::new();
    names.push(string_of(&chars_of("dcwa")));
    names.push(string_of(&chars_of("fabric-api")));
    names.push(string_of(&chars_of("lithium")));
    names.push(string_of(&chars_of("iris")));
    names.push(string_of(&chars_of("modmenu")));
    names.push(string_of(&chars_of("sodium")));
    names.push(string_of(&chars_of("placeholder-api")));
    proof {
        assert(string_views(names@) =~= base_mod_names());
    }
    names
}

/// The catalog's identifiers of the base mods.
pub fn base_ids() -> (ids: Vec<Vec<char>>)
    ensures
        vec_views(ids@) == base_mod_ids(),
{
    let mut ids: Vec<Vec<char>> = Vec::new();
    ids.push(chars_of("HdwRs3kc"));
    ids.push(chars_of("P7dR8mSH"));
    ids.push(chars_of("gvQqBUqZ"));
    ids.push(chars_of("YL57xq9U"));
    ids.push(chars_of("mOgUt4GM"));
    ids.push(chars_of("AANobbMI"));
    ids.push(chars_of("eXts2L7r"));
    proof {
        assert(vec_views(ids@) =~= base_mod_ids());
    }
    ids
}

/// The first of `found`, where there is one.
pub open spec fn first_of(found: Option<Seq<Json>>) -> Option<Json> {
    match found {
        Some(list) => if list.len() > 0 {
            Some(list[0])
        } else {
            None
        },
        None => None,
    }
}

/// The address of the first file of the first release in `doc`.
pub open spec fn release_url(doc: Json) -> Option<Seq<char>> {
    match first_of(items(doc)) {
        Some(release) => match first_of(member_items(release, "files"@)) {
            Some(file) => member_text(file, "url"@),
            None => None,
        },
        None => None,
    }
}

/// The identifier that the dependency `dep` adds: its `project_id`, where
/// its `dependency_type` is `required` and the identifier is none of `base`.
pub open spec fn required_id(dep: Json, base: Seq<Seq<char>>) -> Option<Seq<char>> {
    if member_text(dep, "dependency_type"@) == Some("required"@) {
        match member_text(dep, "project_id"@) {
            Some(id) => if base.contains(id) {
                None
            } else {
                Some(id)
            },
            None => None,
        }
    } else {
        None
    }
}

/// The identifiers that the first `upto` of `deps` add, in order.
pub open spec fn required_ids(deps: Seq<Json>, base: Seq<Seq<char>>, upto: int) -> Seq<Seq<char>>
    decreases upto,
{
    if upto <= 0 {
        Seq::<Seq<char>>::empty()
    } else {
        match required_id(deps[upto - 1], base) {
            Some(id) => required_ids(deps, base, upto - 1).push(id),
            None => required_ids(deps, base, upto - 1),
        }
    }
}

/// The identifiers that the first release in `doc` requires.
pub open spec fn release_dependencies(doc: Json, base: Seq<Seq<char>>) -> Seq<Seq<char>> {
    match first_of(items(doc)) {
        Some(release) => match member_items(release, "dependencies"@) {
            Some(deps) => required_ids(deps, base, deps.len() as int),
            None => Seq::<Seq<char>>::empty(),
        },
        None => Seq::<Seq<char>>::empty(),
    }
}

/// Whether `data` is what the answer `doc` comes to.
pub open spec fn is_release_of(data: ModVersionData, doc: Json, base: Seq<Seq<char>>) -> bool {
    &&& release_url(doc) == Some(data.url@)
    &&& string_views(data.dependencies@) == release_dependencies(doc, base)
}

/// Tests whether `id` is one of `ids`.
pub fn is_among(ids: &Vec<Vec<char>>, id: &Vec<char>) -> (r: bool)
    ensures
        r == vec_views(ids@).contains(id@),
{
    let mut k: usize = 0;
    while k < ids.len()
        invariant
            k <= ids.len(),
            forall|m: int| 0 <= m < k ==> vec_views(ids@)[m] != id@,
        decreases ids.len() - k,
    {
        proof {
            assert(vec_views(ids@)[k as int] == ids@[k as int]@);
        }
        if same_chars(&ids[k], id) {
            proof {
                assert(vec_views(ids@)[k as int] == id@);
            }
            return true;
        }
        k += 1;
    }
    proof {
        assert(vec_views(ids@).len() == ids@.len());
    }
    false
}

/// The identifiers that the dependencies `deps` add.
fn required_among(deps: &Vec<Json>, base: &Vec<Vec<char>>) -> (ids: Vec<String>)
    ensures
        string_views(ids@) == required_ids(deps@, vec_views(base@), deps.len() as int),
{
    let required = chars_of("required");
    let mut ids: Vec<String> = Vec::new();
    let mut i: usize = 0;
    proof {
        assert(string_views(ids@) =~= Seq::<Seq<char>>::empty());
    }
    while i < deps.len()
        invariant
            i <= deps.len(),
            required@ == "required"@,
            string_views(ids@) == required_ids(deps@, vec_views(base@), i as int),
        decreases deps.len() - i,
    {
        let dep = &deps[i];
        let wanted = match dep.text_at("dependency_type") {
            Some(kind) => same_chars(&chars_of(kind.as_str()), &required),
            None => false,
        };
        if wanted {
            match dep.text_at("project_id") {
                Some(id) => {
                    if !is_among(base, &chars_of(id.as_str())) {
                        let copy = id.clone();
                        proof {
                            assert(string_views(ids@.push(copy)) == string_views(ids@).push(copy@));
                        }
                        ids.push(copy);
                    }
                },
                None => {},
            }
        }
        i += 1;
    }
    ids
}

/// Reads what an answer of the version catalog comes to: the address of the
/// first file of the first release and the identifiers that the release
/// requires, but for those in `base`. `None` where the answer holds no
/// release with a file.
pub fn select_release(doc: &Json, base: &Vec<Vec<char>>) -> (r: Option<ModVersionData>)
    ensures
        match r {
            Some(data) => is_release_of(data, *doc, vec_views(base@)),
            None => release_url(*doc) is None,
        },
{
    let releases = match doc.as_array() {
        Some(releases) => releases,
        None => {
            return None;
        },
    };
    if releases.len() == 0 {
        return None;
    }
    let release = &releases[0];
    let files = match release.array_at("files") {
        Some(files) => files,
        None => {
            return None;
        },
    };
    if files.len() == 0 {
        return None;
    }
    let url = match files[0].text_at("url") {
        Some(url) => url.clone(),
        None => {
            return None;
        },
    };
    let dependencies = match release.array_at("dependencies") {
        Some(deps) => required_among(deps, base),
        None => {
            let none: Vec<String> = Vec::new();
            proof {
                assert(string_views(none@) =~= Seq::<Seq<char>>::empty());
            }
            none
        },
    };
    Some(ModVersionData { url, dependencies })
}

/// Reads the body of an answer of the version catalog for one mod: what the
/// answer comes to, with the base mods left out of its dependencies; `None`
/// inside where no release fits; an error where the body is no JSON.
pub fn fetch_mod_version_data(body: &str) -> (r: Result<Option<ModVersionData>, ParseError>)
    ensures
        match r {
            Err(e) => json_in(body@) is None && e == ParseError::Malformed,
            Ok(found) => json_in(body@) matches Some(doc) && match found {
                Some(data) => is_release_of(data, doc, base_mod_ids()),
                None => release_url(doc) is None,
            },
        },
{
    match parse_json(body) {
        None => Err(ParseError::Malformed),
        Some(doc) => Ok(select_release(&doc, &base_ids())),
    }
}

/// The address that answers which releases of `mod_id` fit the game version `version`.
pub open spec fn version_query(mod_id: Seq<char>, version: Seq<char>) -> Seq<char> {
    "https://api.modrinth.com/v2/project/"@ + mod_id
        + "/version?loaders=[\"fabric\"]&game_versions=[\""@ + version + "\"]"@
}

/// Builds the address that answers which releases of `mod_id` fit the game
/// version `version`.
pub fn version_query_url(mod_id: &str, version: &str) -> (url: String)
    ensures
        url@ == version_query(mod_id@, version@),
{
    let mut url = chars_of("https://api.modrinth.com/v2/project/");
    append_chars(&mut url, &chars_of(mod_id));
    append_chars(&mut url, &chars_of("/version?loaders=[\"fabric\"]&game_versions=[\""));
    append_chars(&mut url, &chars_of(version));
    append_chars(&mut url, &chars_of("\"]"));
    string_of(&url)
}

/// The name of the file that the mod `name` is installed as.
pub open spec fn mod_file(name: Seq<char>) -> Seq<char> {
    name + "-AUTOUPDATE.jar"@
}

/// Builds the name of the file that the mod `name` is installed as.
pub fn mod_file_name(name: &str) -> (file: String)
    ensures
        file@ == mod_file(name@),
{
    let mut file = chars_of(name);
    append_chars(&mut file, &chars_of("-AUTOUPDATE.jar"));
    string_of(&file)
}

/// Whether the mods installed last time are those of the game version
/// `version`: `saved` is what the note of the last installation holds, if
/// there is one; the white space around it does not count.
pub open spec fn is_up_to_date(saved: Option<Seq<char>>, version: Seq<char>) -> bool {
    match saved {
        Some(note) => trim(note) == version,
        None => false,
    }
}

/// What to do about the installed mods.
#[derive(Debug)]
pub enum ModsPlan {
    /// The mods of this game version are installed: nothing to do.
    UpToDate,
    /// Delete the files named, where they exist, then resolve and download.
    Refresh { stale: Vec<String> },
}

/// Decides what to do about the installed mods before the game version
/// `version` is launched: nothing where the note of the last installation
/// names that version; otherwise the files of all base mods go and the mods
/// are resolved anew.
pub fn download_mods(saved: Option<&str>, version: &str) -> (plan: ModsPlan)
    ensures
        match plan {
            ModsPlan::UpToDate => is_up_to_date(
                match saved {
                    Some(note) => Some(note@),
                    None => None,
                },
                version@,
            ),
            ModsPlan::Refresh { stale } => {
                &&& !is_up_to_date(
                    match saved {
                        Some(note) => Some(note@),
                        None => None,
                    },
                    version@,
                )
                &&& string_views(stale@) == base_mod_names().map_values(
                    |name: Seq<char>| mod_file(name),
                )
            },
        },
{
    let fresh = match saved {
        Some(note) => same_chars(&trimmed(&chars_of(note)), &chars_of(version)),
        None => false,
    };
    if fresh {
        return ModsPlan::UpToDate;
    }
    let names = base_mods();
    let ghost file = |name: Seq<char>| mod_file(name);
    let mut stale: Vec<String> = Vec::new();
    let mut i: usize = 0;
    proof {
        assert(string_views(stale@) =~= base_mod_names().take(0).map_values(file));
    }
    while i < names.len()
        invariant
            i <= names.len(),
            string_views(names@) == base_mod_names(),
            file == |name: Seq<char>| mod_file(name),
            string_views(stale@) == base_mod_names().take(i as int).map_values(file),
        decreases names.len() - i,
    {
        let name = mod_file_name(names[i].as_str());
        proof {
            let all = base_mod_names();
            assert(all[i as int] == names@[i as int]@);
            assert(all.take(i + 1) == all.take(i as int).push(all[i as int]));
            assert(all.take(i as int).push(all[i as int]).map_values(file) == all.take(
                i as int,
            ).map_values(file).push(file(all[i as int])));
            assert(string_views(stale@.push(name)) == string_views(stale@).push(name@));
        }
        stale.push(name);
        i += 1;
    }
    proof {
        assert(string_views(names@).len() == names@.len());
        assert(base_mod_names().take(names.len() as int) == base_mod_names());
    }
    ModsPlan::Refresh { stale }
}

} // verus!
