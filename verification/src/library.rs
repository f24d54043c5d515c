//! Telling a library's logical name and version from the name of its jar file.
//!
//! The extension is dropped first. The members of the ASM family are told by
//! a small table of prefixes, so that `asm-tree` never falls in with `asm`.
//! Every other name is cut at its hyphens: the pieces before the first one
//! that begins with a digit are the logical name, the pieces from there on are
//! the version.

use crate::split::{join, join_from, split, split_on, Separator};
use crate::text::{
    append_chars, chars_of, contains_chars, contains_run, has_prefix, has_suffix, is_ascii_digit,
    is_digit, slice_of, string_of, vec_views,
};
use vstd::prelude::*;

verus! {

/// The file name without a trailing `.jar`.
pub open spec fn jar_stem(file: Seq<char>) -> Seq<char> {
    if ".jar"@.is_suffix_of(file) {
        file.take(file.len() - ".jar"@.len())
    } else {
        file
    }
}

/// The words that name the members of the ASM family other than `asm` itself.
pub open spec fn family_words() -> Seq<Seq<char>> {
    seq!["tree"@, "util"@, "analysis"@, "commons"@]
}

/// The logical name of the family member that `word` names.
pub open spec fn family_name(word: Seq<char>) -> Seq<char> {
    "asm-"@ + word
}

/// What a stem has to begin with to belong to the family member that `word` names.
pub open spec fn family_prefix(word: Seq<char>) -> Seq<char> {
    "asm-"@ + word + "-"@
}

/// Whether `stem` holds none of the first `upto` family words.
pub open spec fn free_of_family_words(stem: Seq<char>, upto: int) -> bool {
    forall|k: int| 0 <= k < upto ==> !contains_run(stem, #[trigger] family_words()[k])
}

/// Whether `stem` is a jar of `asm` itself: it begins with `asm-` and holds
/// no family word.
pub open spec fn is_plain_asm(stem: Seq<char>) -> bool {
    "asm-"@.is_prefix_of(stem) && free_of_family_words(stem, family_words().len() as int)
}

/// The first of the family words from index `from` on whose prefix `stem` begins with.
pub open spec fn family_member(stem: Seq<char>, from: int) -> Option<Seq<char>>
    decreases family_words().len() - from,
{
    if from < 0 || from >= family_words().len() {
        None
    } else if family_prefix(family_words()[from]).is_prefix_of(stem) {
        Some(family_words()[from])
    } else {
        family_member(stem, from + 1)
    }
}

/// Whether `piece` begins with a decimal digit.
pub open spec fn leads_with_digit(piece: Seq<char>) -> bool {
    piece.len() > 0 && is_digit(piece[0])
}

/// The index of the first piece from `from` on that begins with a digit.
pub open spec fn first_versioned(pieces: Seq<Seq<char>>, from: int) -> Option<int>
    decreases pieces.len() - from,
{
    if from < 0 || from >= pieces.len() {
        None
    } else if leads_with_digit(pieces[from]) {
        Some(from)
    } else {
        first_versioned(pieces, from + 1)
    }
}

/// The hyphen-separated pieces of `stem`.
pub open spec fn hyphen_pieces(stem: Seq<char>) -> Seq<Seq<char>> {
    split(stem, Separator::Char('-'))
}

/// Where the version begins among the hyphen-separated pieces of `stem`: at
/// the first piece that begins with a digit, if `stem` holds a hyphen at all.
pub open spec fn version_start(stem: Seq<char>) -> Option<int> {
    if hyphen_pieces(stem).len() > 1 {
        first_versioned(hyphen_pieces(stem), 0)
    } else {
        None
    }
}

/// The logical name of the library in the jar file `file`.
pub open spec fn library_name(file: Seq<char>) -> Seq<char> {
    let stem = jar_stem(file);
    if is_plain_asm(stem) {
        "asm"@
    } else {
        match family_member(stem, 0) {
            Some(word) => family_name(word),
            None => match version_start(stem) {
                Some(at) => join(hyphen_pieces(stem).take(at), "-"@),
                None => stem,
            },
        }
    }
}

/// The version of the library in the jar file `file`, where its name shows one.
pub open spec fn library_version(file: Seq<char>) -> Option<Seq<char>> {
    let stem = jar_stem(file);
    if is_plain_asm(stem) {
        Some(stem.skip("asm-"@.len() as int))
    } else {
        match family_member(stem, 0) {
            Some(word) => Some(stem.skip(family_prefix(word).len() as int)),
            None => match version_start(stem) {
                Some(at) => Some(join(hyphen_pieces(stem).skip(at), "-"@)),
                None => None,
            },
        }
    }
}

/// The characters of `file` without a trailing `.jar`.
pub fn stem_of(file: &str) -> (out: Vec<char>)
    ensures
        out@ == jar_stem(file@),
{
    let chars = chars_of(file);
    let extension = chars_of(".jar");
    if has_suffix(&chars, &extension) {
        slice_of(&chars, 0, chars.len() - extension.len())
    } else {
        chars
    }
}

/// The family words, in the order of `family_words`.
pub fn family_word_list() -> (out: Vec<Vec<char>>)
    ensures
        vec_views(out@) == family_words(),
{
    let mut out: Vec<Vec<char>> = Vec::new();
    out.push(chars_of("tree"));
    out.push(chars_of("util"));
    out.push(chars_of("analysis"));
    out.push(chars_of("commons"));
    proof {
        assert(vec_views(out@) =~= family_words());
    }
    out
}

/// Tests whether `stem` is a jar of `asm` itself.
pub fn plain_asm(stem: &Vec<char>) -> (r: bool)
    ensures
        r == is_plain_asm(stem@),
{
    let lead = chars_of("asm-");
    if !has_prefix(stem, &lead) {
        return false;
    }
    let words = family_word_list();
    let mut k: usize = 0;
    while k < words.len()
        invariant
            k <= words.len(),
            vec_views(words@) == family_words(),
            free_of_family_words(stem@, k as int),
        decreases words.len() - k,
    {
        proof {
            assert(vec_views(words@)[k as int] == words@[k as int]@);
        }
        if contains_chars(stem, &words[k]) {
            return false;
        }
        k += 1;
    }
    proof {
        assert(vec_views(words@).len() == words@.len());
    }
    true
}

/// The prefix of the family member that `word` names.
pub fn family_prefix_of(word: &Vec<char>) -> (out: Vec<char>)
    ensures
        out@ == family_prefix(word@),
{
    let mut out = chars_of("asm-");
    append_chars(&mut out, word);
    append_chars(&mut out, &chars_of("-"));
    out
}

/// The family word whose prefix `stem` begins with, if there is one.
pub fn family_member_of(stem: &Vec<char>) -> (r: Option<Vec<char>>)
    ensures
        match r {
            Some(word) => family_member(stem@, 0) == Some(word@),
            None => family_member(stem@, 0) is None,
        },
{
    let words = family_word_list();
    let mut k: usize = 0;
    while k < words.len()
        invariant
            k <= words.len(),
            vec_views(words@) == family_words(),
            family_member(stem@, 0) == family_member(stem@, k as int),
        decreases words.len() - k,
    {
        proof {
            assert(vec_views(words@)[k as int] == words@[k as int]@);
            assert(vec_views(words@).len() == words@.len());
        }
        let prefix = family_prefix_of(&words[k]);
        if has_prefix(stem, &prefix) {
            return Some(words[k].clone());
        }
        k += 1;
    }
    proof {
        assert(vec_views(words@).len() == words@.len());
    }
    None
}

/// The index of the piece at which the version of `stem` begins, if any.
pub fn version_start_of(pieces: &Vec<Vec<char>>) -> (r: Option<usize>)
    ensures
        match r {
            Some(at) => first_versioned(vec_views(pieces@), 0) == Some(at as int) && at
                < pieces.len(),
            None => first_versioned(vec_views(pieces@), 0) is None,
        },
{
    let ghost all = vec_views(pieces@);
    let mut k: usize = 0;
    while k < pieces.len()
        invariant
            k <= pieces.len(),
            all == vec_views(pieces@),
            first_versioned(all, 0) == first_versioned(all, k as int),
        decreases pieces.len() - k,
    {
        proof {
            assert(all[k as int] == pieces@[k as int]@);
        }
        if pieces[k].len() > 0 && is_ascii_digit(pieces[k][0]) {
            return Some(k);
        }
        k += 1;
    }
    None
}

/// Writes the first `upto` members of `pieces` one after the other, with a
/// hyphen between two neighbours.
fn join_first(pieces: &Vec<Vec<char>>, upto: usize) -> (out: Vec<char>)
    requires
        upto <= pieces.len(),
    ensures
        out@ == join(vec_views(pieces@).take(upto as int), "-"@),
{
    let mut head: Vec<Vec<char>> = Vec::new();
    let mut k: usize = 0;
    while k < upto
        invariant
            k <= upto <= pieces.len(),
            vec_views(head@) == vec_views(pieces@).take(k as int),
        decreases upto - k,
    {
        let piece = pieces[k].clone();
        proof {
            assert(piece@ == pieces@[k as int]@);
            assert(vec_views(head@.push(piece)) == vec_views(head@).push(piece@));
            assert(vec_views(pieces@).take(k + 1) == vec_views(pieces@).take(k as int).push(
                pieces@[k as int]@,
            ));
        }
        head.push(piece);
        k += 1;
    }
    let out = join_from(&head, 0, &chars_of("-"));
    proof {
        assert(vec_views(head@).skip(0) == vec_views(head@));
    }
    out
}

/// Infers the logical name of a library from the name of its jar file.
pub fn extract_library_name(filename: &str) -> (name: String)
    ensures
        name@ == library_name(filename@),
{
    let stem = stem_of(filename);
    if plain_asm(&stem) {
        return string_of(&chars_of("asm"));
    }
    match family_member_of(&stem) {
        Some(word) => {
            let mut name = chars_of("asm-");
            append_chars(&mut name, &word);
            string_of(&name)
        },
        None => {
            let pieces = split_on(&stem, Separator::Char('-'));
            if pieces.len() > 1 {
                match version_start_of(&pieces) {
                    Some(at) => string_of(&join_first(&pieces, at)),
                    None => string_of(&stem),
                }
            } else {
                string_of(&stem)
            }
        },
    }
}

/// Infers the version of a library from the name of its jar file; `None`
/// where the name shows no version.
pub fn extract_version(filename: &str) -> (version: Option<String>)
    ensures
        match version {
            Some(v) => library_version(filename@) == Some(v@),
            None => library_version(filename@) is None,
        },
{
    let stem = stem_of(filename);
    if plain_asm(&stem) {
        let lead = chars_of("asm-");
        return Some(string_of(&slice_of(&stem, lead.len(), stem.len())));
    }
    match family_member_of(&stem) {
        Some(word) => {
            let prefix = family_prefix_of(&word);
            proof {
                assert(prefix@.len() <= stem@.len()) by {
                    assert(family_member(stem@, 0) == Some(word@));
                    lemma_family_member_is_prefix(stem@, 0);
                }
            }
            Some(string_of(&slice_of(&stem, prefix.len(), stem.len())))
        },
        None => {
            let pieces = split_on(&stem, Separator::Char('-'));
            if pieces.len() > 1 {
                match version_start_of(&pieces) {
                    Some(at) => Some(string_of(&join_from(&pieces, at, &chars_of("-")))),
                    None => None,
                }
            } else {
                None
            }
        },
    }
}

/// The family member found for a stem is one whose prefix the stem begins with.
pub proof fn lemma_family_member_is_prefix(stem: Seq<char>, from: int)
    requires
        0 <= from,
        family_member(stem, from) is Some,
    ensures
        family_prefix(family_member(stem, from).unwrap()).is_prefix_of(stem),
        family_words().contains(family_member(stem, from).unwrap()),
    decreases family_words().len() - from,
{
    if from < family_words().len() {
        if family_prefix(family_words()[from]).is_prefix_of(stem) {
            assert(family_words()[from] == family_member(stem, from).unwrap());
        } else {
            lemma_family_member_is_prefix(stem, from + 1);
        }
    }
}

/// The pieces before the first that begins with a digit do not begin with one.
pub proof fn lemma_first_versioned(pieces: Seq<Seq<char>>, from: int)
    requires
        0 <= from,
    ensures
        first_versioned(pieces, from) matches Some(at) ==> from <= at < pieces.len()
            && leads_with_digit(pieces[at]) && forall|k: int|
            from <= k < at ==> !leads_with_digit(#[trigger] pieces[k]),
        first_versioned(pieces, from) is None ==> forall|k: int|
            from <= k < pieces.len() ==> !leads_with_digit(#[trigger] pieces[k]),
    decreases pieces.len() - from,
{
    if from < pieces.len() && !leads_with_digit(pieces[from]) {
        lemma_first_versioned(pieces, from + 1);
    }
}

/// Name and version are the two parts of the stem: where a jar's name
/// shows a version, the stem is the logical name, a hyphen and the version;
/// or, where the version begins the stem, the logical name is empty and the
/// stem is the version.
pub proof fn lemma_name_and_version_make_stem(file: Seq<char>)
    requires
        library_version(file) is Some,
    ensures
        jar_stem(file) == library_name(file) + "-"@ + library_version(file).unwrap() || (
        library_name(file).len() == 0 && jar_stem(file) == library_version(file).unwrap()),
{
    reveal_strlit("-");
    reveal_strlit("asm");
    reveal_strlit("asm-");
    let stem = jar_stem(file);
    let hyphen = "-"@;
    assert(hyphen == seq!['-']);
    if is_plain_asm(stem) {
        assert("asm"@ + hyphen == "asm-"@);
        assert("asm-"@ + stem.skip("asm-"@.len() as int) == stem);
    } else if family_member(stem, 0) is Some {
        let word = family_member(stem, 0).unwrap();
        lemma_family_member_is_prefix(stem, 0);
        assert(family_name(word) + hyphen == family_prefix(word));
        assert(family_prefix(word) + stem.skip(family_prefix(word).len() as int) == stem);
    } else {
        let pieces = hyphen_pieces(stem);
        let at = version_start(stem).unwrap();
        lemma_first_versioned(pieces, 0);
        crate::split::lemma_join_split(stem, '-');
        if at == 0 {
            assert(pieces.take(0).len() == 0);
            assert(pieces.skip(0) == pieces);
        } else {
            assert(pieces.take(at) + pieces.skip(at) == pieces);
            crate::split::lemma_join_concat(pieces.take(at), pieces.skip(at), hyphen);
        }
    }
}

} // verus!
