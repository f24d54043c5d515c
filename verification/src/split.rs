//! Cutting a character sequence into pieces and putting pieces together.

use crate::text::{char_is_whitespace, is_whitespace, vec_views};
use vstd::prelude::*;

verus! {

/// What cuts a character sequence into pieces.
#[derive(Clone, Copy, Debug)]
pub enum Separator {
    /// One given character.
    Char(char),
    /// A slash or a backslash: the separators of an archive entry's name.
    Path,
    /// Any character with the Unicode property `White_Space`.
    Whitespace,
}

impl Separator {
    /// Whether `c` separates two pieces.
    pub open spec fn matches(self, c: char) -> bool {
        match self {
            Separator::Char(d) => c == d,
            Separator::Path => c == '/' || c == '\\',
            Separator::Whitespace => is_whitespace(c),
        }
    }

    /// Tests whether `c` separates two pieces.
    pub fn test(&self, c: char) -> (r: bool)
        ensures
            r == self.matches(c),
    {
        match self {
            Separator::Char(d) => c == *d,
            Separator::Path => c == '/' || c == '\\',
            Separator::Whitespace => char_is_whitespace(c),
        }
    }
}

/// The pieces of `s` between separators. There is one piece more than there
/// are separators in `s`, so a piece can be empty and the result never is.
pub open spec fn split(s: Seq<char>, sep: Separator) -> Seq<Seq<char>>
    decreases s.len(),
{
    if s.len() == 0 {
        seq![Seq::<char>::empty()]
    } else {
        let init = split(s.drop_last(), sep);
        if sep.matches(s.last()) {
            init.push(Seq::<char>::empty())
        } else {
            init.drop_last().push(init.last().push(s.last()))
        }
    }
}

/// `pieces` without its empty members.
pub open spec fn drop_empty(pieces: Seq<Seq<char>>) -> Seq<Seq<char>>
    decreases pieces.len(),
{
    if pieces.len() == 0 {
        pieces
    } else if pieces.last().len() > 0 {
        drop_empty(pieces.drop_last()).push(pieces.last())
    } else {
        drop_empty(pieces.drop_last())
    }
}

/// The non-empty pieces of `s` between separators.
pub open spec fn fields(s: Seq<char>, sep: Separator) -> Seq<Seq<char>> {
    drop_empty(split(s, sep))
}

/// `pieces` written one after the other, with `glue` between two neighbours.
pub open spec fn join(pieces: Seq<Seq<char>>, glue: Seq<char>) -> Seq<char>
    decreases pieces.len(),
{
    if pieces.len() == 0 {
        Seq::<char>::empty()
    } else if pieces.len() == 1 {
        pieces[0]
    } else {
        join(pieces.drop_last(), glue) + glue + pieces.last()
    }
}

/// Whether no character of `s` is a separator.
pub open spec fn free_of(s: Seq<char>, sep: Separator) -> bool {
    forall|i: int| 0 <= i < s.len() ==> !sep.matches(#[trigger] s[i])
}

/// A split never comes out empty, and no piece holds a separator.
pub proof fn lemma_split_pieces(s: Seq<char>, sep: Separator)
    ensures
        split(s, sep).len() >= 1,
        forall|k: int| 0 <= k < split(s, sep).len() ==> free_of(#[trigger] split(s, sep)[k], sep),
    decreases s.len(),
{
    if s.len() > 0 {
        lemma_split_pieces(s.drop_last(), sep);
    }
}

/// Joining the pieces of a split on one character with that character gives
/// the sequence back.
pub proof fn lemma_join_split(s: Seq<char>, c: char)
    ensures
        join(split(s, Separator::Char(c)), seq![c]) == s,
    decreases s.len(),
{
    let sep = Separator::Char(c);
    if s.len() > 0 {
        let init = split(s.drop_last(), sep);
        lemma_split_pieces(s.drop_last(), sep);
        lemma_join_split(s.drop_last(), c);
        if sep.matches(s.last()) {
            let next = init.push(Seq::<char>::empty());
            assert(next.drop_last() == init);
            assert(join(next, seq![c]) == join(init, seq![c]) + seq![c] + Seq::<char>::empty());
            assert(s == s.drop_last() + seq![c]);
        } else {
            let next = init.drop_last().push(init.last().push(s.last()));
            if init.len() == 1 {
                assert(join(init, seq![c]) == init[0]);
                assert(join(next, seq![c]) == init[0].push(s.last()));
            } else {
                assert(next.drop_last() == init.drop_last());
                assert(join(next, seq![c]) == join(init.drop_last(), seq![c]) + seq![c]
                    + init.last().push(s.last()));
                assert(join(init, seq![c]) == join(init.drop_last(), seq![c]) + seq![c]
                    + init.last());
            }
            assert(s == s.drop_last().push(s.last()));
        }
    }
}

/// Joining two non-empty lists of pieces, one after the other, is joining
/// each and putting the glue between them.
pub proof fn lemma_join_concat(first: Seq<Seq<char>>, second: Seq<Seq<char>>, glue: Seq<char>)
    requires
        first.len() > 0,
        second.len() > 0,
    ensures
        join(first + second, glue) == join(first, glue) + glue + join(second, glue),
    decreases second.len(),
{
    let all = first + second;
    assert(all.drop_last() == first + second.drop_last());
    assert(all.last() == second.last());
    if second.len() == 1 {
        assert(first + second.drop_last() == first);
        assert(join(second, glue) == second[0]);
    } else {
        lemma_join_concat(first, second.drop_last(), glue);
        if second.len() == 2 {
            assert(join(second.drop_last(), glue) == second[0]);
        }
        assert(join(all, glue) == join(first, glue) + glue + join(second.drop_last(), glue) + glue
            + second.last());
        assert(join(second, glue) == join(second.drop_last(), glue) + glue + second.last());
    }
}

/// No member of `drop_empty(pieces)` is empty, and each is a member of `pieces`.
pub proof fn lemma_drop_empty(pieces: Seq<Seq<char>>)
    ensures
        drop_empty(pieces).len() <= pieces.len(),
        forall|k: int|
            0 <= k < drop_empty(pieces).len() ==> (#[trigger] drop_empty(pieces)[k]).len() > 0
                && pieces.contains(drop_empty(pieces)[k]),
    decreases pieces.len(),
{
    if pieces.len() > 0 {
        let init = pieces.drop_last();
        lemma_drop_empty(init);
        assert forall|k: int| 0 <= k < drop_empty(pieces).len() implies (
        #[trigger] drop_empty(pieces)[k]).len() > 0 && pieces.contains(drop_empty(pieces)[k]) by {
            if k < drop_empty(init).len() {
                let j = choose|j: int| 0 <= j < init.len() && init[j] == drop_empty(init)[k];
                assert(pieces[j] == drop_empty(pieces)[k]);
            } else {
                assert(pieces[pieces.len() - 1] == drop_empty(pieces)[k]);
            }
        }
    }
}

/// Cuts `v` at every separator.
pub fn split_on(v: &Vec<char>, sep: Separator) -> (out: Vec<Vec<char>>)
    ensures
        vec_views(out@) == split(v@, sep),
{
    let mut out: Vec<Vec<char>> = Vec::new();
    let mut piece: Vec<char> = Vec::new();
    let mut i: usize = 0;
    proof {
        assert(v@.take(0) == Seq::<char>::empty());
        assert(vec_views(out@).push(piece@) == seq![Seq::<char>::empty()]);
    }
    while i < v.len()
        invariant
            i <= v.len(),
            vec_views(out@).push(piece@) == split(v@.take(i as int), sep),
        decreases v.len() - i,
    {
        let c = v[i];
        proof {
            assert(v@.take(i + 1).drop_last() == v@.take(i as int));
            assert(v@.take(i + 1).last() == c);
            let init = split(v@.take(i as int), sep);
            assert(init.drop_last() == vec_views(out@));
            assert(init.last() == piece@);
        }
        if sep.test(c) {
            proof {
                assert(vec_views(out@.push(piece)) == vec_views(out@).push(piece@));
            }
            out.push(piece);
            piece = Vec::new();
        } else {
            piece.push(c);
        }
        i += 1;
    }
    proof {
        assert(v@.take(v.len() as int) == v@);
        assert(vec_views(out@.push(piece)) == vec_views(out@).push(piece@));
    }
    out.push(piece);
    out
}

/// Keeps the non-empty members of `pieces`.
pub fn without_empty(pieces: Vec<Vec<char>>) -> (out: Vec<Vec<char>>)
    ensures
        vec_views(out@) == drop_empty(vec_views(pieces@)),
{
    let mut out: Vec<Vec<char>> = Vec::new();
    let mut i: usize = 0;
    let ghost all = vec_views(pieces@);
    proof {
        assert(all.take(0) == Seq::<Seq<char>>::empty());
    }
    while i < pieces.len()
        invariant
            i <= pieces.len(),
            all == vec_views(pieces@),
            vec_views(out@) == drop_empty(all.take(i as int)),
        decreases pieces.len() - i,
    {
        proof {
            assert(all.take(i + 1).drop_last() == all.take(i as int));
            assert(all.take(i + 1).last() == pieces@[i as int]@);
        }
        if pieces[i].len() > 0 {
            let piece = pieces[i].clone();
            proof {
                assert(piece@ == pieces@[i as int]@);
                assert(vec_views(out@.push(piece)) == vec_views(out@).push(piece@));
            }
            out.push(piece);
        }
        i += 1;
    }
    proof {
        assert(all.take(pieces.len() as int) == all);
    }
    out
}

/// Cuts `v` at every separator and keeps the non-empty pieces.
pub fn fields_of(v: &Vec<char>, sep: Separator) -> (out: Vec<Vec<char>>)
    ensures
        vec_views(out@) == fields(v@, sep),
{
    without_empty(split_on(v, sep))
}

/// Writes the members of `pieces` from index `from` one after the other, with
/// `glue` between two neighbours.
pub fn join_from(pieces: &Vec<Vec<char>>, from: usize, glue: &Vec<char>) -> (out: Vec<char>)
    requires
        from <= pieces.len(),
    ensures
        out@ == join(vec_views(pieces@).skip(from as int), glue@),
{
    let mut out: Vec<char> = Vec::new();
    let mut i: usize = from;
    let ghost all = vec_views(pieces@).skip(from as int);
    proof {
        assert(all.take(0) == Seq::<Seq<char>>::empty());
    }
    while i < pieces.len()
        invariant
            from <= i <= pieces.len(),
            all == vec_views(pieces@).skip(from as int),
            out@ == join(all.take(i - from), glue@),
        decreases pieces.len() - i,
    {
        proof {
            assert(all.take(i + 1 - from).drop_last() == all.take(i - from));
            assert(all.take(i + 1 - from).last() == pieces@[i as int]@);
            if i > from {
                assert(all.take(i + 1 - from).len() >= 2);
            } else {
                assert(all.take(i + 1 - from)[0] == pieces@[i as int]@);
            }
        }
        if i > from {
            crate::text::append_chars(&mut out, glue);
        }
        crate::text::append_chars(&mut out, &pieces[i]);
        i += 1;
    }
    proof {
        assert(all.take(pieces.len() - from) == all);
    }
    out
}

} // verus!
