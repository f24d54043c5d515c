//! Where the entries of an archive go below the destination directory.
//!
//! An entry's name is cut at slashes and backslashes into components. Where
//! all entries share their first component, that component is a wrapping
//! directory and is left out; otherwise every component is kept. What is kept
//! is then resolved: `.` stays where it is, `..` goes one level up, any other
//! component goes one level down. An entry is refused where its name is
//! absolute, where resolving it would leave the destination, or where it is a
//! file and resolves to the destination itself.

use crate::split::{fields, fields_of, join, join_from, lemma_drop_empty, lemma_split_pieces, split, Separator};
use crate::text::{chars_of, same_chars, string_of, string_views, vec_views};
use vstd::prelude::*;

verus! {

/// The components of an entry's name.
pub open spec fn components(name: Seq<char>) -> Seq<Seq<char>> {
    fields(name, Separator::Path)
}

/// The first component of an entry's name, if it has one.
pub open spec fn top_of(name: Seq<char>) -> Option<Seq<char>> {
    if components(name).len() > 0 {
        Some(components(name)[0])
    } else {
        None
    }
}

/// Whether `top` is the first component of some entry and of every entry that
/// has a component at all.
pub open spec fn is_common_top(names: Seq<Seq<char>>, top: Seq<char>) -> bool {
    &&& exists|i: int| 0 <= i < names.len() && top_of(#[trigger] names[i]) == Some(top)
    &&& forall|j: int|
        0 <= j < names.len() ==> top_of(#[trigger] names[j]) is None || top_of(names[j]) == Some(
            top,
        )
}

/// The one first component that the entries share, if there is exactly one
/// distinct first component among them.
pub open spec fn common_top(names: Seq<Seq<char>>) -> Option<Seq<char>> {
    if exists|top: Seq<char>| is_common_top(names, top) {
        Some(choose|top: Seq<char>| is_common_top(names, top))
    } else {
        None
    }
}

/// The components of entry `name` that are kept: all but the first where the
/// entries share it, all of them otherwise.
pub open spec fn kept_components(names: Seq<Seq<char>>, name: Seq<char>) -> Seq<Seq<char>> {
    if common_top(names) is Some && components(name).len() > 0 {
        components(name).skip(1)
    } else {
        components(name)
    }
}

/// The levels below the destination that `parts` lead through, or `None`
/// where they lead out of it.
pub open spec fn resolve(parts: Seq<Seq<char>>) -> Option<Seq<Seq<char>>>
    decreases parts.len(),
{
    if parts.len() == 0 {
        Some(Seq::<Seq<char>>::empty())
    } else {
        match resolve(parts.drop_last()) {
            None => None,
            Some(levels) => if parts.last() == ".."@ {
                if levels.len() == 0 {
                    None
                } else {
                    Some(levels.drop_last())
                }
            } else if parts.last() == "."@ {
                Some(levels)
            } else {
                Some(levels.push(parts.last()))
            },
        }
    }
}

/// Whether the name begins with a separator.
pub open spec fn is_absolute(name: Seq<char>) -> bool {
    name.len() > 0 && Separator::Path.matches(name[0])
}

/// Whether the name ends with a separator, which marks a directory.
pub open spec fn names_directory(name: Seq<char>) -> bool {
    name.len() > 0 && Separator::Path.matches(name.last())
}

/// The levels below the destination at which the entry `name` is written, or
/// `None` where the entry is refused.
pub open spec fn target_levels(names: Seq<Seq<char>>, name: Seq<char>) -> Option<Seq<Seq<char>>> {
    if is_absolute(name) {
        None
    } else {
        match resolve(kept_components(names, name)) {
            None => None,
            Some(levels) => if levels.len() == 0 && !names_directory(name) {
                None
            } else {
                Some(levels)
            },
        }
    }
}

/// The path of the entry `name` relative to the destination, its levels
/// joined by slashes, or `None` where the entry is refused.
pub open spec fn target_path(names: Seq<Seq<char>>, name: Seq<char>) -> Option<Seq<char>> {
    match target_levels(names, name) {
        Some(levels) => Some(join(levels, "/"@)),
        None => None,
    }
}

/// The index of the first entry that is refused, if any is.
pub open spec fn first_refused(names: Seq<Seq<char>>, from: int) -> Option<int>
    decreases names.len() - from,
{
    if from < 0 || from >= names.len() {
        None
    } else if target_path(names, names[from]) is None {
        Some(from)
    } else {
        first_refused(names, from + 1)
    }
}

/// The name of the folder that the archive unpacks to: the component that all
/// entries share, or `fallback` where they share none.
pub open spec fn root_name(names: Seq<Seq<char>>, fallback: Seq<char>) -> Seq<char> {
    match common_top(names) {
        Some(top) => top,
        None => fallback,
    }
}

/// Whether `level` can name a file or directory directly below another
/// directory: it is not empty, holds no separator, and is neither `.` nor `..`.
pub open spec fn is_plain_level(level: Seq<char>) -> bool {
    &&& level.len() > 0
    &&& crate::split::free_of(level, Separator::Path)
    &&& level != "."@
    &&& level != ".."@
}

/// Whether the entry `name` is written inside the destination: it is not
/// refused, and the levels that its path leads through are all plain.
pub open spec fn stays_inside(names: Seq<Seq<char>>, name: Seq<char>) -> bool {
    match target_levels(names, name) {
        Some(levels) => forall|k: int| 0 <= k < levels.len() ==> is_plain_level(#[trigger] levels[k]),
        None => false,
    }
}

/// Where one entry of an archive goes.
#[derive(Debug)]
pub struct PlannedEntry {
    /// The path relative to the destination, its levels joined by slashes.
    pub path: String,
    /// Whether the entry is a directory.
    pub is_dir: bool,
}

/// Why an archive was not unpacked.
#[derive(Debug, Clone, Copy, PartialEq, Eq, Structural)]
pub enum ExtractError {
    /// The archive could not be read.
    Unreadable,
    /// The entry at this index would be written outside the destination, or
    /// is a file that names the destination itself.
    UnsafePath(usize),
}

/// No two components are common to the entries at once.
pub proof fn lemma_common_top_unique(names: Seq<Seq<char>>, a: Seq<char>, b: Seq<char>)
    requires
        is_common_top(names, a),
        is_common_top(names, b),
    ensures
        a == b,
{
    let i = choose|i: int| 0 <= i < names.len() && top_of(#[trigger] names[i]) == Some(a);
    assert(top_of(names[i]) is None || top_of(names[i]) == Some(b));
}

/// The component that the entries share is the first component of every
/// entry that has one, and some entry has it.
pub proof fn lemma_common_top(names: Seq<Seq<char>>)
    ensures
        common_top(names) matches Some(top) ==> is_common_top(names, top),
        common_top(names) is None ==> forall|top: Seq<char>| !is_common_top(names, top),
{
}

/// Every component is non-empty and holds no separator.
pub proof fn lemma_components_plain(name: Seq<char>)
    ensures
        forall|k: int|
            0 <= k < components(name).len() ==> (#[trigger] components(name)[k]).len() > 0
                && crate::split::free_of(components(name)[k], Separator::Path),
{
    let pieces = split(name, Separator::Path);
    lemma_split_pieces(name, Separator::Path);
    lemma_drop_empty(pieces);
    assert forall|k: int| 0 <= k < components(name).len() implies (#[trigger] components(
        name,
    )[k]).len() > 0 && crate::split::free_of(components(name)[k], Separator::Path) by {
        let c = components(name)[k];
        assert(pieces.contains(c));
        let j = choose|j: int| 0 <= j < pieces.len() && pieces[j] == c;
        assert(crate::split::free_of(pieces[j], Separator::Path));
    }
}

/// What resolving yields is made of plain levels only, as far as the parts
/// resolved are non-empty and free of separators.
pub proof fn lemma_resolve_plain(parts: Seq<Seq<char>>)
    requires
        forall|k: int|
            0 <= k < parts.len() ==> (#[trigger] parts[k]).len() > 0 && crate::split::free_of(
                parts[k],
                Separator::Path,
            ),
    ensures
        resolve(parts) matches Some(levels) ==> forall|k: int|
            0 <= k < levels.len() ==> is_plain_level(#[trigger] levels[k]),
    decreases parts.len(),
{
    if parts.len() > 0 {
        let init = parts.drop_last();
        assert forall|k: int| 0 <= k < init.len() implies (#[trigger] init[k]).len() > 0
            && crate::split::free_of(init[k], Separator::Path) by {
            assert(init[k] == parts[k]);
        }
        lemma_resolve_plain(init);
        assert(parts.last() == parts[parts.len() - 1]);
    }
}

/// No entry is ever written outside the destination: the path of an entry
/// that is not refused leads through plain levels only, so it names a place
/// below the destination, or the destination itself for a directory.
pub proof fn lemma_target_inside(names: Seq<Seq<char>>, name: Seq<char>)
    ensures
        target_levels(names, name) matches Some(levels) ==> {
            &&& forall|k: int| 0 <= k < levels.len() ==> is_plain_level(#[trigger] levels[k])
            &&& levels.len() > 0 || names_directory(name)
        },
{
    lemma_components_plain(name);
    let kept = kept_components(names, name);
    assert forall|k: int| 0 <= k < kept.len() implies (#[trigger] kept[k]).len() > 0
        && crate::split::free_of(kept[k], Separator::Path) by {
        if common_top(names) is Some && components(name).len() > 0 {
            assert(kept[k] == components(name)[k + 1]);
        }
    }
    lemma_resolve_plain(kept);
}

/// The shared first component is left out of every entry's path, and only
/// where there is one: with it the kept components, put after it, are the
/// entry's components; without it they are the entry's components as they are.
pub proof fn lemma_strip_rule(names: Seq<Seq<char>>, i: int)
    requires
        0 <= i < names.len(),
    ensures
        common_top(names) matches Some(top) ==> (components(names[i]).len() > 0 ==> seq![top]
            + kept_components(names, names[i]) == components(names[i])),
        common_top(names) is None ==> kept_components(names, names[i]) == components(names[i]),
{
    lemma_common_top(names);
    if let Some(top) = common_top(names) {
        if components(names[i]).len() > 0 {
            assert(top_of(names[i]) == Some(top));
            assert(seq![top] + components(names[i]).skip(1) =~= components(names[i]));
        }
    }
}

/// The folder name and the unpacking agree: the folder is named after the
/// shared first component exactly where that component is left out of the
/// entries' paths, and after the fallback exactly where nothing is left out.
pub proof fn lemma_root_name_agrees(names: Seq<Seq<char>>, fallback: Seq<char>, i: int)
    requires
        0 <= i < names.len(),
    ensures
        common_top(names) matches Some(top) ==> root_name(names, fallback) == top && (components(
            names[i],
        ).len() > 0 ==> seq![top] + kept_components(names, names[i]) == components(names[i])),
        common_top(names) is None ==> root_name(names, fallback) == fallback && kept_components(
            names,
            names[i],
        ) == components(names[i]),
{
    lemma_strip_rule(names, i);
}

/// The first component of `name`, if it has one.
pub fn top_component(name: &Vec<char>) -> (r: Option<Vec<char>>)
    ensures
        match r {
            Some(top) => top_of(name@) == Some(top@),
            None => top_of(name@) is None,
        },
{
    let parts = fields_of(name, Separator::Path);
    if parts.len() > 0 {
        proof {
            assert(vec_views(parts@)[0] == parts@[0]@);
        }
        Some(parts[0].clone())
    } else {
        None
    }
}

/// Finds the one first component that the entries share.
pub fn find_common_top(names: &Vec<Vec<char>>) -> (r: Option<Vec<char>>)
    ensures
        match r {
            Some(top) => common_top(vec_views(names@)) == Some(top@),
            None => common_top(vec_views(names@)) is None,
        },
{
    let ghost all = vec_views(names@);
    let mut first: Option<Vec<char>> = None;
    let mut several = false;
    let ghost mut seen: int = 0;
    let ghost mut other: int = 0;
    let mut i: usize = 0;
    while i < names.len()
        invariant
            i <= names.len(),
            all == vec_views(names@),
            first is None ==> !several && forall|j: int|
                0 <= j < i ==> top_of(#[trigger] all[j]) is None,
            first matches Some(top) ==> 0 <= seen < i && top_of(all[seen]) == Some(top@),
            first matches Some(top) ==> (!several ==> forall|j: int|
                0 <= j < i ==> top_of(#[trigger] all[j]) is None || top_of(all[j]) == Some(top@)),
            several ==> first is Some && 0 <= other < i && top_of(all[other]) is Some && top_of(
                all[other],
            ) != top_of(all[seen]),
        decreases names.len() - i,
    {
        proof {
            assert(all[i as int] == names@[i as int]@);
        }
        match top_component(&names[i]) {
            None => {},
            Some(top) => {
                match &first {
                    None => {
                        proof {
                            seen = i as int;
                        }
                        first = Some(top);
                    },
                    Some(known) => {
                        if !same_chars(known, &top) {
                            proof {
                                other = i as int;
                            }
                            several = true;
                        }
                    },
                }
            },
        }
        i += 1;
    }
    proof {
        assert(all.len() == names@.len());
    }
    match first {
        Some(top) => {
            if several {
                proof {
                    assert forall|t: Seq<char>| !is_common_top(all, t) by {
                        if is_common_top(all, t) {
                            assert(top_of(all[seen]) == Some(t));
                            assert(top_of(all[other]) == Some(t));
                        }
                    }
                }
                None
            } else {
                proof {
                    assert(is_common_top(all, top@));
                    lemma_common_top_unique(all, top@, common_top(all).unwrap());
                }
                Some(top)
            }
        },
        None => {
            proof {
                assert forall|t: Seq<char>| !is_common_top(all, t) by {
                    if is_common_top(all, t) {
                        let k = choose|k: int|
                            0 <= k < all.len() && top_of(#[trigger] all[k]) == Some(t);
                        assert(top_of(all[k]) is None);
                    }
                }
            }
            None
        },
    }
}

/// Resolves the members of `parts` from index `from` on.
pub fn resolve_from(parts: &Vec<Vec<char>>, from: usize) -> (r: Option<Vec<Vec<char>>>)
    requires
        from <= parts.len(),
    ensures
        match r {
            Some(levels) => resolve(vec_views(parts@).skip(from as int)) == Some(
                vec_views(levels@),
            ),
            None => resolve(vec_views(parts@).skip(from as int)) is None,
        },
{
    let ghost all = vec_views(parts@).skip(from as int);
    let up = chars_of("..");
    let here = chars_of(".");
    let mut levels: Vec<Vec<char>> = Vec::new();
    let mut k: usize = from;
    proof {
        assert(all.take(0) == Seq::<Seq<char>>::empty());
        assert(vec_views(levels@) == Seq::<Seq<char>>::empty());
    }
    while k < parts.len()
        invariant
            from <= k <= parts.len(),
            all == vec_views(parts@).skip(from as int),
            up@ == ".."@,
            here@ == "."@,
            resolve(all.take(k - from)) == Some(vec_views(levels@)),
            forall|m: int| 0 <= m <= k - from ==> resolve(#[trigger] all.take(m)) is Some,
        decreases parts.len() - k,
    {
        proof {
            assert(all.take(k + 1 - from).drop_last() == all.take(k - from));
            assert(all.take(k + 1 - from).last() == parts@[k as int]@);
        }
        if same_chars(&parts[k], &up) {
            if levels.len() == 0 {
                proof {
                    assert(resolve(all.take(k + 1 - from)) is None);
                    lemma_resolve_prefix(all, k + 1 - from);
                }
                return None;
            }
            proof {
                assert(vec_views(levels@.drop_last()) == vec_views(levels@).drop_last());
            }
            levels.pop();
        } else if same_chars(&parts[k], &here) {
        } else {
            let part = parts[k].clone();
            proof {
                assert(vec_views(levels@.push(part)) == vec_views(levels@).push(part@));
            }
            levels.push(part);
        }
        k += 1;
    }
    proof {
        assert(all.take(parts.len() - from) == all);
    }
    Some(levels)
}

/// Where resolving a beginning of `parts` leaves the destination, resolving
/// all of `parts` does.
pub proof fn lemma_resolve_prefix(parts: Seq<Seq<char>>, upto: int)
    requires
        0 <= upto <= parts.len(),
        resolve(parts.take(upto)) is None,
    ensures
        resolve(parts) is None,
    decreases parts.len() - upto,
{
    if upto == parts.len() {
        assert(parts.take(upto) == parts);
    } else {
        assert(parts.take(upto + 1).drop_last() == parts.take(upto));
        lemma_resolve_prefix(parts, upto + 1);
    }
}

/// Tests whether `name` ends with a separator.
pub fn is_directory_name(name: &Vec<char>) -> (r: bool)
    ensures
        r == names_directory(name@),
{
    name.len() > 0 && Separator::Path.test(name[name.len() - 1])
}

/// The path of the entry `name` relative to the destination, given whether
/// the entries share their first component.
pub fn target_of(name: &Vec<char>, shared: bool) -> (r: Option<Vec<char>>)
    ensures
        forall|names: Seq<Seq<char>>|
            common_top(names) is Some == shared ==> match r {
                Some(path) => #[trigger] target_path(names, name@) == Some(path@),
                None => target_path(names, name@) is None,
            },
{
    if name.len() > 0 && Separator::Path.test(name[0]) {
        return None;
    }
    let parts = fields_of(name, Separator::Path);
    let from: usize = if shared && parts.len() > 0 {
        1
    } else {
        0
    };
    proof {
        assert(vec_views(parts@).skip(0) == vec_views(parts@));
    }
    match resolve_from(&parts, from) {
        None => None,
        Some(levels) => {
            if levels.len() == 0 && !is_directory_name(name) {
                None
            } else {
                let path = join_from(&levels, 0, &chars_of("/"));
                proof {
                    assert(vec_views(levels@).skip(0) == vec_views(levels@));
                }
                Some(path)
            }
        },
    }
}

/// Decides where every entry of an archive goes, from the entries' names.
///
/// Where all entries share their first component it is left out of every
/// path; otherwise nothing is left out. The plan has one member for each
/// entry, in the entries' order. The first entry that is refused, if any,
/// makes the whole plan fail. No path of a plan leads out of the destination.
pub fn plan_extraction(names: &Vec<String>) -> (r: Result<Vec<PlannedEntry>, ExtractError>)
    ensures
        match r {
            Ok(plan) => {
                &&& first_refused(string_views(names@), 0) is None
                &&& plan.len() == names.len()
                &&& forall|i: int|
                    0 <= i < plan.len() ==> target_path(
                        string_views(names@),
                        #[trigger] string_views(names@)[i],
                    ) == Some(plan[i].path@) && plan[i].is_dir == names_directory(
                        string_views(names@)[i],
                    ) && stays_inside(string_views(names@), string_views(names@)[i])
            },
            Err(e) => e matches ExtractError::UnsafePath(i) && first_refused(
                string_views(names@),
                0,
            ) == Some(i as int),
        },
{
    let chars = crate::text::chars_of_each(names);
    let ghost all = string_views(names@);
    let shared = find_common_top(&chars).is_some();
    let mut plan: Vec<PlannedEntry> = Vec::new();
    let mut i: usize = 0;
    while i < chars.len()
        invariant
            i <= chars.len(),
            chars.len() == names.len(),
            all == string_views(names@),
            all == vec_views(chars@),
            shared == common_top(all) is Some,
            first_refused(all, 0) == first_refused(all, i as int),
            plan.len() == i,
            forall|k: int|
                0 <= k < i ==> target_path(all, #[trigger] all[k]) == Some(plan[k].path@)
                    && plan[k].is_dir == names_directory(all[k]) && stays_inside(all, all[k]),
        decreases chars.len() - i,
    {
        proof {
            assert(all[i as int] == chars@[i as int]@);
        }
        match target_of(&chars[i], shared) {
            None => {
                proof {
                    assert(target_path(all, chars@[i as int]@) is None);
                }
                return Err(ExtractError::UnsafePath(i));
            },
            Some(path) => {
                proof {
                    assert(target_path(all, chars@[i as int]@) == Some(path@));
                    lemma_target_inside(all, all[i as int]);
                }
                let is_dir = is_directory_name(&chars[i]);
                plan.push(PlannedEntry { path: string_of(&path), is_dir });
            },
        }
        i += 1;
    }
    proof {
        assert(vec_views(chars@).len() == chars@.len());
    }
    Ok(plan)
}

/// Names the folder that an archive unpacks to, from the entries' names: the
/// first component where all entries share it, `fallback` otherwise.
pub fn folder_name(names: &Vec<String>, fallback: &str) -> (name: String)
    ensures
        name@ == root_name(string_views(names@), fallback@),
{
    let chars = crate::text::chars_of_each(names);
    match find_common_top(&chars) {
        Some(top) => string_of(&top),
        None => string_of(&chars_of(fallback)),
    }
}


} // verus!
