//! Choosing which installed library jars to delete.
//!
//! Jars are grouped by logical name. Only the groups of a fixed list of names
//! are touched: in each of them the jar with the highest version stays and
//! every other one goes. Among jars of one version the one found last stays.

use crate::library::{extract_library_name, extract_version, library_name, library_version};
use crate::text::{chars_of, has_suffix, string_of, string_views};
use crate::version::{
    lemma_order_antisymmetric, lemma_order_reflexive, lemma_order_transitive, version_order,
    versions_order,
};
use vstd::prelude::*;

verus! {

/// A jar file found under the library directory.
#[derive(Debug)]
pub struct LibraryArtifact {
    /// The logical name that groups the versions of one library.
    pub name: String,
    /// The version, `0.0.0` where the file name shows none.
    pub version: String,
    /// Where the file lies.
    pub path: String,
}

/// A file found under the library directory: its name and where it lies.
#[derive(Debug)]
pub struct FoundFile {
    /// The last component of the path.
    pub file_name: String,
    /// Where the file lies.
    pub path: String,
}

/// The version that a jar counts as: the one its name shows, else `0.0.0`.
pub open spec fn version_or_default(file: Seq<char>) -> Seq<char> {
    match library_version(file) {
        Some(v) => v,
        None => "0.0.0"@,
    }
}

/// Whether `file` names a jar: something, then `.jar`.
pub open spec fn names_jar(file: Seq<char>) -> bool {
    ".jar"@.is_suffix_of(file) && file.len() > ".jar"@.len()
}

/// Whether `artifact` describes the jar `file`.
pub open spec fn describes(artifact: LibraryArtifact, file: FoundFile) -> bool {
    &&& artifact.name@ == library_name(file.file_name@)
    &&& artifact.version@ == version_or_default(file.file_name@)
    &&& artifact.path@ == file.path@
}

/// The files among the first `upto` of `files` that name a jar.
pub open spec fn jars_among(files: Seq<FoundFile>, upto: int) -> Seq<FoundFile>
    decreases upto,
{
    if upto <= 0 {
        Seq::<FoundFile>::empty()
    } else if names_jar(files[upto - 1].file_name@) {
        jars_among(files, upto - 1).push(files[upto - 1])
    } else {
        jars_among(files, upto - 1)
    }
}

/// The logical names whose jars are known to clash at run time.
pub open spec fn conflict_prone_names() -> Seq<Seq<char>> {
    seq!["asm"@, "asm-tree"@, "asm-util"@, "asm-analysis"@, "asm-commons"@]
}

/// Whether jars of the logical name `name` may be deleted at all.
pub open spec fn is_conflict_prone(name: Seq<char>) -> bool {
    conflict_prone_names().contains(name)
}

/// Whether the jar at `j` is to stay rather than the jar at `i`: it has the
/// higher version, or the same version and was found later.
pub open spec fn outranks(artifacts: Seq<LibraryArtifact>, j: int, i: int) -> bool {
    let order = versions_order(artifacts[i].version@, artifacts[j].version@);
    order < 0 || (order == 0 && i < j)
}

/// Whether the jar at `j` is of the same library as the jar at `i` and is to
/// stay rather than it.
pub open spec fn supersedes(artifacts: Seq<LibraryArtifact>, j: int, i: int) -> bool {
    &&& 0 <= j < artifacts.len()
    &&& artifacts[j].name@ == artifacts[i].name@
    &&& outranks(artifacts, j, i)
}

/// Whether the jar at `i` is to be deleted: its logical name is on the list
/// and another jar of that name is to stay rather than it.
pub open spec fn superseded(artifacts: Seq<LibraryArtifact>, i: int) -> bool {
    is_conflict_prone(artifacts[i].name@) && exists|j: int| supersedes(artifacts, j, i)
}

/// The paths of the jars to delete among the first `upto`, in the order found.
pub open spec fn removals(artifacts: Seq<LibraryArtifact>, upto: int) -> Seq<Seq<char>>
    decreases upto,
{
    if upto <= 0 {
        Seq::<Seq<char>>::empty()
    } else if superseded(artifacts, upto - 1) {
        removals(artifacts, upto - 1).push(artifacts[upto - 1].path@)
    } else {
        removals(artifacts, upto - 1)
    }
}

/// Tests whether `file_name` names a jar.
pub fn is_jar_file(file_name: &str) -> (r: bool)
    ensures
        r == names_jar(file_name@),
{
    let chars = chars_of(file_name);
    let extension = chars_of(".jar");
    has_suffix(&chars, &extension) && chars.len() > extension.len()
}

/// Describes the jar `file`: its logical name, its version and its path.
pub fn library_artifact(file: &FoundFile) -> (artifact: LibraryArtifact)
    ensures
        describes(artifact, *file),
{
    let name = extract_library_name(file.file_name.as_str());
    let version = match extract_version(file.file_name.as_str()) {
        Some(v) => v,
        None => string_of(&chars_of("0.0.0")),
    };
    LibraryArtifact { name, version, path: file.path.clone() }
}

/// Describes every jar among `files`, in the order found; files that are no
/// jars are passed over.
pub fn find_jar_files(files: &Vec<FoundFile>) -> (artifacts: Vec<LibraryArtifact>)
    ensures
        artifacts.len() == jars_among(files@, files.len() as int).len(),
        forall|k: int|
            0 <= k < artifacts.len() ==> describes(
                #[trigger] artifacts[k],
                jars_among(files@, files.len() as int)[k],
            ),
{
    let mut artifacts: Vec<LibraryArtifact> = Vec::new();
    let mut i: usize = 0;
    while i < files.len()
        invariant
            i <= files.len(),
            artifacts.len() == jars_among(files@, i as int).len(),
            forall|k: int|
                0 <= k < artifacts.len() ==> describes(
                    #[trigger] artifacts[k],
                    jars_among(files@, i as int)[k],
                ),
        decreases files.len() - i,
    {
        if is_jar_file(files[i].file_name.as_str()) {
            let artifact = library_artifact(&files[i]);
            artifacts.push(artifact);
        }
        i += 1;
    }
    artifacts
}

/// Tests whether jars of the logical name `name` may be deleted at all.
pub fn conflict_prone(name: &str) -> (r: bool)
    ensures
        r == is_conflict_prone(name@),
{
    let chars = chars_of(name);
    let mut listed: Vec<Vec<char>> = Vec::new();
    listed.push(chars_of("asm"));
    listed.push(chars_of("asm-tree"));
    listed.push(chars_of("asm-util"));
    listed.push(chars_of("asm-analysis"));
    listed.push(chars_of("asm-commons"));
    proof {
        assert(crate::text::vec_views(listed@) =~= conflict_prone_names());
    }
    let mut k: usize = 0;
    while k < listed.len()
        invariant
            k <= listed.len(),
            chars@ == name@,
            crate::text::vec_views(listed@) == conflict_prone_names(),
            forall|m: int| 0 <= m < k ==> conflict_prone_names()[m] != name@,
        decreases listed.len() - k,
    {
        proof {
            assert(crate::text::vec_views(listed@)[k as int] == listed@[k as int]@);
        }
        if crate::text::same_chars(&listed[k], &chars) {
            proof {
                assert(conflict_prone_names()[k as int] == name@);
            }
            return true;
        }
        k += 1;
    }
    proof {
        assert(crate::text::vec_views(listed@).len() == listed@.len());
    }
    false
}

/// Tests whether the jar at `i` is to be deleted.
pub fn is_superseded(artifacts: &Vec<LibraryArtifact>, i: usize) -> (r: bool)
    requires
        i < artifacts.len(),
    ensures
        r == superseded(artifacts@, i as int),
{
    if !conflict_prone(artifacts[i].name.as_str()) {
        return false;
    }
    let mut j: usize = 0;
    while j < artifacts.len()
        invariant
            j <= artifacts.len(),
            i < artifacts.len(),
            is_conflict_prone(artifacts@[i as int].name@),
            forall|m: int| 0 <= m < j ==> !supersedes(artifacts@, m, i as int),
        decreases artifacts.len() - j,
    {
        if artifacts[j].name == artifacts[i].name {
            let order = version_order(artifacts[i].version.as_str(), artifacts[j].version.as_str());
            if order < 0 || (order == 0 && i < j) {
                proof {
                    assert(supersedes(artifacts@, j as int, i as int));
                }
                return true;
            }
        }
        j += 1;
    }
    false
}

/// Chooses the jars to delete and returns their paths in the order found.
///
/// Of the jars that share a logical name on the list, only the one with the
/// highest version stays; jars of any other name all stay.
pub fn deduplicate_libraries(artifacts: &Vec<LibraryArtifact>) -> (doomed: Vec<String>)
    ensures
        string_views(doomed@) == removals(artifacts@, artifacts.len() as int),
{
    let mut doomed: Vec<String> = Vec::new();
    let mut i: usize = 0;
    proof {
        assert(string_views(doomed@) =~= Seq::<Seq<char>>::empty());
    }
    while i < artifacts.len()
        invariant
            i <= artifacts.len(),
            string_views(doomed@) == removals(artifacts@, i as int),
        decreases artifacts.len() - i,
    {
        if is_superseded(artifacts, i) {
            let path = artifacts[i].path.clone();
            proof {
                assert(string_views(doomed@.push(path)) == string_views(doomed@).push(path@));
            }
            doomed.push(path);
        }
        i += 1;
    }
    doomed
}

/// The jar among the first `upto` of the logical name `name` that is to stay.
pub open spec fn survivor(artifacts: Seq<LibraryArtifact>, name: Seq<char>, upto: int) -> Option<
    int,
>
    decreases upto,
{
    if upto <= 0 {
        None
    } else {
        let earlier = survivor(artifacts, name, upto - 1);
        if artifacts[upto - 1].name@ != name {
            earlier
        } else {
            match earlier {
                None => Some(upto - 1),
                Some(k) => if versions_order(artifacts[k].version@, artifacts[upto - 1].version@)
                    <= 0 {
                    Some(upto - 1)
                } else {
                    Some(k)
                },
            }
        }
    }
}

/// The survivor among the first `upto` jars is one of them, has the name
/// asked for, and no jar of that name among them is to stay rather than it.
pub proof fn lemma_survivor(artifacts: Seq<LibraryArtifact>, name: Seq<char>, upto: int)
    requires
        0 <= upto <= artifacts.len(),
    ensures
        survivor(artifacts, name, upto) is None ==> forall|j: int|
            0 <= j < upto ==> (#[trigger] artifacts[j]).name@ != name,
        survivor(artifacts, name, upto) matches Some(k) ==> {
            &&& 0 <= k < upto
            &&& artifacts[k].name@ == name
            &&& forall|j: int|
                0 <= j < upto && (#[trigger] artifacts[j]).name@ == name ==> !outranks(
                    artifacts,
                    j,
                    k,
                )
        },
    decreases upto,
{
    if upto > 0 {
        lemma_survivor(artifacts, name, upto - 1);
        let last = upto - 1;
        if artifacts[last].name@ == name {
            match survivor(artifacts, name, upto - 1) {
                None => {
                    lemma_order_reflexive(artifacts[last].version@);
                },
                Some(k) => {
                    let vk = artifacts[k].version@;
                    let vl = artifacts[last].version@;
                    lemma_order_antisymmetric(vk, vl);
                    if versions_order(vk, vl) <= 0 {
                        lemma_order_reflexive(vl);
                        assert forall|j: int|
                            0 <= j < upto && (#[trigger] artifacts[j]).name@
                                == name implies !outranks(artifacts, j, last) by {
                            if j < last {
                                let vj = artifacts[j].version@;
                                assert(!outranks(artifacts, j, k));
                                lemma_order_antisymmetric(vk, vj);
                                lemma_order_antisymmetric(vl, vj);
                                if j != k {
                                    lemma_order_transitive(vj, vk, vl);
                                }
                            }
                        }
                    } else {
                        assert(!outranks(artifacts, last, k));
                    }
                },
            }
        }
    }
}

/// Of the jars of one logical name on the list exactly one stays: some jar of
/// that name is not deleted, and no two are.
pub proof fn lemma_one_jar_stays(artifacts: Seq<LibraryArtifact>, i: int)
    requires
        0 <= i < artifacts.len(),
    ensures
        exists|k: int|
            0 <= k < artifacts.len() && (#[trigger] artifacts[k]).name@ == artifacts[i].name@
                && !superseded(artifacts, k),
        forall|k: int, m: int|
            0 <= k < m < artifacts.len() && (#[trigger] artifacts[k]).name@ == artifacts[i].name@
                && (#[trigger] artifacts[m]).name@ == artifacts[i].name@ && is_conflict_prone(
                artifacts[i].name@,
            ) ==> superseded(artifacts, k) || superseded(artifacts, m),
{
    let name = artifacts[i].name@;
    lemma_survivor(artifacts, name, artifacts.len() as int);
    let k = survivor(artifacts, name, artifacts.len() as int).unwrap();
    assert(artifacts[k].name@ == name);
    assert(!superseded(artifacts, k)) by {
        assert forall|j: int| !supersedes(artifacts, j, k) by {
            if 0 <= j < artifacts.len() && artifacts[j].name@ == name {
                assert(!outranks(artifacts, j, k));
            }
        }
    }
    assert forall|k: int, m: int|
        0 <= k < m < artifacts.len() && (#[trigger] artifacts[k]).name@ == artifacts[i].name@ && (
        #[trigger] artifacts[m]).name@ == artifacts[i].name@ && is_conflict_prone(
            artifacts[i].name@,
        ) implies superseded(artifacts, k) || superseded(artifacts, m) by {
        lemma_order_antisymmetric(artifacts[k].version@, artifacts[m].version@);
        if versions_order(artifacts[k].version@, artifacts[m].version@) <= 0 {
            assert(supersedes(artifacts, m, k));
        } else {
            assert(supersedes(artifacts, k, m));
        }
    }
}

/// A jar whose logical name is not on the list is never deleted.
pub proof fn lemma_unlisted_jar_stays(artifacts: Seq<LibraryArtifact>, i: int)
    requires
        0 <= i < artifacts.len(),
        !is_conflict_prone(artifacts[i].name@),
    ensures
        !superseded(artifacts, i),
{
}

} // verus!
