//! Reading what `java -version` prints.
//!
//! The version stands between the first two double quotes of the line that
//! names it. Old versions are written `1.8.0_391`, where the second piece is
//! the major version; newer ones are written `21.0.1`, where the first is.

use crate::number::{parse_u32, parse_u32_spec};
use crate::split::{split, split_on, Separator};
use crate::text::{
    chars_of, contains_chars, contains_run, find_char, index_of_char, same_chars, slice_of,
    string_of, trim, trimmed, vec_views,
};
use vstd::prelude::*;

verus! {

/// What stands between the first two double quotes of `line`.
pub open spec fn quoted(line: Seq<char>) -> Option<Seq<char>> {
    match index_of_char(line, '"', 0) {
        Some(open) => match index_of_char(line, '"', open + 1) {
            Some(close) => Some(line.subrange(open + 1, close)),
            None => None,
        },
        None => None,
    }
}

/// The piece of a version that writes the major version: the second where
/// the first is `1` and a second exists, the first otherwise.
pub open spec fn major_piece(version: Seq<char>) -> Seq<char> {
    let pieces = split(version, Separator::Char('.'));
    if pieces[0] == "1"@ && pieces.len() > 1 {
        pieces[1]
    } else {
        pieces[0]
    }
}

/// The major version that `version` writes.
pub open spec fn major_version(version: Seq<char>) -> Option<u32> {
    parse_u32_spec(major_piece(version))
}

/// Whether `line` is one that names the version.
pub open spec fn names_version(line: Seq<char>) -> bool {
    contains_run(line, "java version"@) || contains_run(line, "openjdk version"@)
}

/// The index of the first line from `from` on that names the version and
/// holds something in quotes.
pub open spec fn version_line(lines: Seq<Seq<char>>, from: int) -> Option<int>
    decreases lines.len() - from,
{
    if from < 0 || from >= lines.len() {
        None
    } else if names_version(lines[from]) && quoted(lines[from]) is Some {
        Some(from)
    } else {
        version_line(lines, from + 1)
    }
}

/// The version that the output of `java -version` names, in quotes.
pub open spec fn reported_version(output: Seq<char>) -> Option<Seq<char>> {
    let lines = split(output, Separator::Char('\n'));
    match version_line(lines, 0) {
        Some(at) => quoted(lines[at]),
        None => None,
    }
}

/// Takes the version out of a line of the output: what stands between the
/// first two double quotes.
pub fn extract_version_from_line(line: &str) -> (r: Option<String>)
    ensures
        match r {
            Some(version) => quoted(line@) == Some(version@),
            None => quoted(line@) is None,
        },
{
    let chars = chars_of(line);
    quoted_in(&chars)
}

/// What stands between the first two double quotes of `line`.
fn quoted_in(line: &Vec<char>) -> (r: Option<String>)
    ensures
        match r {
            Some(version) => quoted(line@) == Some(version@),
            None => quoted(line@) is None,
        },
{
    let open = match find_char(line, '"', 0) {
        Some(open) => open,
        None => {
            return None;
        },
    };
    let close = match find_char(line, '"', open + 1) {
        Some(close) => close,
        None => {
            return None;
        },
    };
    Some(string_of(&slice_of(line, open + 1, close)))
}

/// Reads the major version out of a version as Java writes it.
pub fn parse_major_version(version_str: &str) -> (r: Result<u32, String>)
    ensures
        match r {
            Ok(major) => major_version(version_str@) == Some(major),
            Err(message) => major_version(version_str@) is None && message@
                == "Could not parse major version"@,
        },
{
    let pieces = split_on(&chars_of(version_str), Separator::Char('.'));
    proof {
        crate::split::lemma_split_pieces(version_str@, Separator::Char('.'));
        assert(vec_views(pieces@).len() == pieces@.len());
        assert(vec_views(pieces@)[0] == pieces@[0]@);
        if pieces.len() > 1 {
            assert(vec_views(pieces@)[1] == pieces@[1]@);
        }
    }
    let one = chars_of("1");
    let piece = if same_chars(&pieces[0], &one) && pieces.len() > 1 {
        &pieces[1]
    } else {
        &pieces[0]
    };
    match parse_u32(piece) {
        Some(major) => Ok(major),
        None => Err(string_of(&chars_of("Could not parse major version"))),
    }
}

/// Reads the major version out of everything that `java -version` printed.
///
/// The first line that names the version and holds something in quotes
/// decides, also where the version in it cannot be read.
pub fn check_java_version(output: &str) -> (r: Result<u32, String>)
    ensures
        match reported_version(output@) {
            Some(version) => match r {
                Ok(major) => major_version(version) == Some(major),
                Err(message) => major_version(version) is None && message@
                    == "Could not parse major version"@,
            },
            None => r matches Err(message) && message@
                == "Could not parse Java version from output"@,
        },
{
    let lines = split_on(&chars_of(output), Separator::Char('\n'));
    let ghost all = vec_views(lines@);
    let java = chars_of("java version");
    let openjdk = chars_of("openjdk version");
    let mut i: usize = 0;
    while i < lines.len()
        invariant
            i <= lines.len(),
            all == vec_views(lines@),
            all == split(output@, Separator::Char('\n')),
            java@ == "java version"@,
            openjdk@ == "openjdk version"@,
            version_line(all, 0) == version_line(all, i as int),
        decreases lines.len() - i,
    {
        proof {
            assert(all[i as int] == lines@[i as int]@);
        }
        if contains_chars(&lines[i], &java) || contains_chars(&lines[i], &openjdk) {
            match quoted_in(&lines[i]) {
                Some(version) => {
                    return parse_major_version(version.as_str());
                },
                None => {},
            }
        }
        i += 1;
    }
    Err(string_of(&chars_of("Could not parse Java version from output")))
}

/// Whether a Java of the major version `major` can run the game.
pub open spec fn is_supported(major: u32) -> bool {
    major >= 21
}

/// Tests whether a Java of the major version `major` can run the game.
pub fn java_is_supported(major: u32) -> (r: bool)
    ensures
        r == is_supported(major),
{
    major >= 21
}

/// The path that the note of the last detection holds: its content without
/// the white space around it, where anything is left.
pub fn cached_java_path(note: &str) -> (r: Option<String>)
    ensures
        match r {
            Some(path) => path@ == trim(note@) && path@.len() > 0,
            None => trim(note@).len() == 0,
        },
{
    let path = trimmed(&chars_of(note));
    if path.len() > 0 {
        Some(string_of(&path))
    } else {
        None
    }
}

/// The first line of `s`: what stands before the first line feed, without
/// a carriage return at its end.
pub open spec fn first_line(s: Seq<char>) -> Seq<char> {
    let line = split(s, Separator::Char('\n'))[0];
    if line.len() > 0 && line.last() == '\r' {
        line.drop_last()
    } else {
        line
    }
}

/// The path that the output of `which java` names: the first line of the
/// output without the white space around it; `None` where nothing is left.
pub fn get_java_executable_path(output: &str) -> (r: Option<String>)
    ensures
        match r {
            Some(path) => trim(output@).len() > 0 && path@ == first_line(trim(output@)),
            None => trim(output@).len() == 0,
        },
{
    let body = trimmed(&chars_of(output));
    if body.len() == 0 {
        return None;
    }
    let lines = split_on(&body, Separator::Char('\n'));
    proof {
        crate::split::lemma_split_pieces(body@, Separator::Char('\n'));
        assert(vec_views(lines@).len() == lines@.len());
        assert(vec_views(lines@)[0] == lines@[0]@);
    }
    let line = &lines[0];
    if line.len() > 0 && line[line.len() - 1] == '\r' {
        Some(string_of(&slice_of(line, 0, line.len() - 1)))
    } else {
        Some(string_of(line))
    }
}

} // verus!
