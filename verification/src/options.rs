//! Keeping the launcher's resource pack switched on in the game's options.
//!
//! The options are lines of `key:value`. The line `resourcePacks` holds a
//! list in square brackets; where it does not name the pack yet, the pack is
//! put at the end of the list.

use crate::split::{drop_empty, join, join_from, split, split_on, without_empty, Separator};
use crate::text::{
    append_chars, chars_of, contains_chars, contains_run, find_char, has_prefix, index_of_char,
    slice_of, string_of, trim, trim_start, trimmed, trimmed_start, vec_views,
};
use vstd::prelude::*;

verus! {

/// `line` without a carriage return at its end.
pub open spec fn without_return(line: Seq<char>) -> Seq<char> {
    if line.len() > 0 && line.last() == '\r' {
        line.drop_last()
    } else {
        line
    }
}

/// The lines of `s`. A line ends with a line feed, or a carriage return and
/// a line feed; the last line need not end at all.
pub open spec fn text_lines(s: Seq<char>) -> Seq<Seq<char>> {
    let pieces = split(s, Separator::Char('\n'));
    let ended = pieces.drop_last().map_values(|piece: Seq<char>| without_return(piece));
    if pieces.last().len() == 0 {
        ended
    } else {
        ended.push(pieces.last())
    }
}

/// Whether `line` lists the resource packs.
pub open spec fn lists_packs(line: Seq<char>) -> bool {
    "resourcePacks:"@.is_prefix_of(trim_start(line))
}

/// Whether `line` lists the resource packs and does not name the launcher's.
pub open spec fn lacks_pack(line: Seq<char>) -> bool {
    lists_packs(line) && !contains_run(line, "OVP.zip"@)
}

/// What stands between the opening bracket at `open` and the last character
/// of `line`.
pub open spec fn bracketed(line: Seq<char>, open: int) -> Seq<char> {
    if open + 1 <= line.len() - 1 {
        line.subrange(open + 1, line.len() - 1)
    } else {
        Seq::<char>::empty()
    }
}

/// The members of a list written with commas: its pieces without the white
/// space around them, as far as anything is left of them.
pub open spec fn list_members(list: Seq<char>) -> Seq<Seq<char>> {
    drop_empty(split(list, Separator::Char(',')).map_values(|piece: Seq<char>| trim(piece)))
}

/// `line` with the launcher's pack at the end of its list; `line` itself
/// where it holds no opening bracket.
pub open spec fn with_pack(line: Seq<char>) -> Seq<char> {
    match index_of_char(line, '[', 0) {
        Some(open) => line.take(open + 1) + join(
            list_members(bracketed(line, open)).push("\"OVP.zip\""@),
            ", "@,
        ) + "]"@,
        None => line,
    }
}

/// What becomes of one line of the options.
pub open spec fn updated_line(line: Seq<char>) -> Seq<char> {
    if lacks_pack(line) {
        with_pack(line)
    } else {
        line
    }
}

/// Whether one of the first `upto` lines lacks the pack.
pub open spec fn any_lacks_pack(lines: Seq<Seq<char>>, upto: int) -> bool {
    exists|i: int| 0 <= i < upto && lacks_pack(#[trigger] lines[i])
}

/// What the options are to hold: every line as `updated_line` gives it,
/// joined by line feeds; `None` where no line lacks the pack, so that
/// nothing is to be written.
pub open spec fn updated_options(content: Seq<char>) -> Option<Seq<char>> {
    let lines = text_lines(content);
    if any_lacks_pack(lines, lines.len() as int) {
        Some(join(lines.map_values(|line: Seq<char>| updated_line(line)), "\n"@))
    } else {
        None
    }
}

/// The lines of `v`.
pub fn lines_of(v: &Vec<char>) -> (out: Vec<Vec<char>>)
    ensures
        vec_views(out@) == text_lines(v@),
{
    let pieces = split_on(v, Separator::Char('\n'));
    let ghost all = vec_views(pieces@);
    let ghost strip = |piece: Seq<char>| without_return(piece);
    proof {
        crate::split::lemma_split_pieces(v@, Separator::Char('\n'));
        assert(all.len() == pieces@.len());
    }
    let last = pieces.len() - 1;
    let mut out: Vec<Vec<char>> = Vec::new();
    let mut i: usize = 0;
    proof {
        assert(vec_views(out@) =~= all.drop_last().take(0).map_values(strip));
    }
    while i < last
        invariant
            i <= last,
            last == pieces.len() - 1,
            all == vec_views(pieces@),
            strip == |piece: Seq<char>| without_return(piece),
            vec_views(out@) == all.drop_last().take(i as int).map_values(strip),
        decreases last - i,
    {
        let piece = &pieces[i];
        let line = if piece.len() > 0 && piece[piece.len() - 1] == '\r' {
            slice_of(piece, 0, piece.len() - 1)
        } else {
            piece.clone()
        };
        proof {
            let ended = all.drop_last();
            assert(ended[i as int] == pieces@[i as int]@);
            assert(piece@.subrange(0, piece@.len() - 1) == piece@.drop_last());
            assert(line@ == strip(ended[i as int]));
            assert(ended.take(i + 1) == ended.take(i as int).push(ended[i as int]));
            assert(ended.take(i as int).push(ended[i as int]).map_values(strip) == ended.take(
                i as int,
            ).map_values(strip).push(strip(ended[i as int])));
            assert(vec_views(out@.push(line)) == vec_views(out@).push(line@));
        }
        out.push(line);
        i += 1;
    }
    proof {
        assert(all.drop_last().take(last as int) == all.drop_last());
        assert(all.last() == pieces@[last as int]@);
    }
    if pieces[last].len() > 0 {
        let line = pieces[last].clone();
        proof {
            assert(vec_views(out@.push(line)) == vec_views(out@).push(line@));
        }
        out.push(line);
    }
    out
}

/// Tests whether `line` lists the resource packs and does not name the launcher's.
pub fn line_lacks_pack(line: &Vec<char>) -> (r: bool)
    ensures
        r == lacks_pack(line@),
{
    has_prefix(&trimmed_start(line), &chars_of("resourcePacks:")) && !contains_chars(
        line,
        &chars_of("OVP.zip"),
    )
}

/// The members of a list written with commas.
pub fn members_of(list: &Vec<char>) -> (out: Vec<Vec<char>>)
    ensures
        vec_views(out@) == list_members(list@),
{
    let pieces = split_on(list, Separator::Char(','));
    let ghost all = vec_views(pieces@);
    let ghost tidy = |piece: Seq<char>| trim(piece);
    let mut tidied: Vec<Vec<char>> = Vec::new();
    let mut i: usize = 0;
    proof {
        assert(vec_views(tidied@) =~= all.take(0).map_values(tidy));
    }
    while i < pieces.len()
        invariant
            i <= pieces.len(),
            all == vec_views(pieces@),
            tidy == |piece: Seq<char>| trim(piece),
            vec_views(tidied@) == all.take(i as int).map_values(tidy),
        decreases pieces.len() - i,
    {
        let piece = trimmed(&pieces[i]);
        proof {
            assert(all[i as int] == pieces@[i as int]@);
            assert(all.take(i + 1) == all.take(i as int).push(all[i as int]));
            assert(all.take(i as int).push(all[i as int]).map_values(tidy) == all.take(
                i as int,
            ).map_values(tidy).push(tidy(all[i as int])));
            assert(vec_views(tidied@.push(piece)) == vec_views(tidied@).push(piece@));
        }
        tidied.push(piece);
        i += 1;
    }
    proof {
        assert(all.take(pieces.len() as int) == all);
    }
    without_empty(tidied)
}

/// Puts the launcher's pack at the end of the list in `line`.
pub fn add_pack(line: &Vec<char>) -> (out: Vec<char>)
    ensures
        out@ == with_pack(line@),
{
    let open = match find_char(line, '[', 0) {
        Some(open) => open,
        None => {
            return line.clone();
        },
    };
    let inner = if open + 1 <= line.len() - 1 {
        slice_of(line, open + 1, line.len() - 1)
    } else {
        Vec::new()
    };
    let mut members = members_of(&inner);
    let pack = chars_of("\"OVP.zip\"");
    proof {
        assert(vec_views(members@.push(pack)) == vec_views(members@).push(pack@));
    }
    members.push(pack);
    let mut out = slice_of(line, 0, open + 1);
    let list = join_from(&members, 0, &chars_of(", "));
    proof {
        assert(vec_views(members@).skip(0) == vec_views(members@));
        assert(line@.subrange(0, open + 1) == line@.take(open + 1));
    }
    append_chars(&mut out, &list);
    append_chars(&mut out, &chars_of("]"));
    out
}

/// Switches the launcher's resource pack on in the game's options: returns
/// what the options are to hold, or `None` where they name the pack already
/// or list no packs, so that nothing is to be written.
pub fn add_resource_pack(options: &str) -> (r: Option<String>)
    ensures
        match r {
            Some(updated) => updated_options(options@) == Some(updated@),
            None => updated_options(options@) is None,
        },
{
    let lines = lines_of(&chars_of(options));
    let ghost all = vec_views(lines@);
    let ghost update = |line: Seq<char>| updated_line(line);
    let mut changed = false;
    let mut updated: Vec<Vec<char>> = Vec::new();
    let mut i: usize = 0;
    proof {
        assert(vec_views(updated@) =~= all.take(0).map_values(update));
    }
    while i < lines.len()
        invariant
            i <= lines.len(),
            all == vec_views(lines@),
            update == |line: Seq<char>| updated_line(line),
            changed == any_lacks_pack(all, i as int),
            vec_views(updated@) == all.take(i as int).map_values(update),
        decreases lines.len() - i,
    {
        let lacks = line_lacks_pack(&lines[i]);
        let line = if lacks {
            add_pack(&lines[i])
        } else {
            lines[i].clone()
        };
        proof {
            assert(all[i as int] == lines@[i as int]@);
            assert(all.take(i + 1) == all.take(i as int).push(all[i as int]));
            assert(all.take(i as int).push(all[i as int]).map_values(update) == all.take(
                i as int,
            ).map_values(update).push(update(all[i as int])));
            assert(vec_views(updated@.push(line)) == vec_views(updated@).push(line@));
            if lacks {
                assert(lacks_pack(all[i as int]));
            }
        }
        if lacks {
            changed = true;
        }
        updated.push(line);
        i += 1;
    }
    proof {
        assert(all.take(lines.len() as int) == all);
        assert(all.len() == lines@.len());
    }
    if !changed {
        return None;
    }
    let text = join_from(&updated, 0, &chars_of("\n"));
    proof {
        assert(vec_views(updated@).skip(0) == vec_views(updated@));
    }
    Some(string_of(&text))
}

} // verus!
