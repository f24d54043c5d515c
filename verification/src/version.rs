//! The order of dot-separated numeric version strings.
//!
//! A version is cut at its dots. Each piece counts as the number it writes, or
//! as 0 where it writes none; a piece that is missing counts as 0 too. Two
//! versions compare as their first differing pieces do.

use crate::number::{parse_u32, parse_u32_spec};
use crate::split::{split, split_on, Separator};
use crate::text::{chars_of, vec_views};
use vstd::prelude::*;

verus! {

/// The number that one piece of a version counts as.
pub open spec fn segment_value(piece: Seq<char>) -> u32 {
    match parse_u32_spec(piece) {
        Some(n) => n,
        None => 0,
    }
}

/// The numbers of the pieces of a version, in order.
pub open spec fn version_numbers(version: Seq<char>) -> Seq<u32> {
    split(version, Separator::Char('.')).map_values(|piece: Seq<char>| segment_value(piece))
}

/// The number at position `i`, or 0 beyond the end.
pub open spec fn number_at(numbers: Seq<u32>, i: int) -> int {
    if 0 <= i < numbers.len() {
        numbers[i] as int
    } else {
        0
    }
}

/// How `a` and `b` compare from position `from` on: -1 where `a` comes first,
/// 1 where `b` does, 0 where neither does.
pub open spec fn numbers_order(a: Seq<u32>, b: Seq<u32>, from: int) -> int
    decreases a.len() + b.len() - from,
{
    if from < 0 || (from >= a.len() && from >= b.len()) {
        0
    } else if number_at(a, from) < number_at(b, from) {
        -1
    } else if number_at(a, from) > number_at(b, from) {
        1
    } else {
        numbers_order(a, b, from + 1)
    }
}

/// How two versions compare: -1 where `a` is the lower, 1 where it is the
/// higher, 0 where they are the same version.
pub open spec fn versions_order(a: Seq<char>, b: Seq<char>) -> int {
    numbers_order(version_numbers(a), version_numbers(b), 0)
}

/// Whether `a` and `b` hold the same number at every position from `from` up
/// to, not including, `to`.
pub open spec fn agree_between(a: Seq<u32>, b: Seq<u32>, from: int, to: int) -> bool {
    forall|j: int| from <= j < to ==> #[trigger] number_at(a, j) == number_at(b, j)
}

/// Whether `a` and `b` hold the same number at every position from `from` on.
pub open spec fn agree_from(a: Seq<u32>, b: Seq<u32>, from: int) -> bool {
    forall|j: int| from <= j ==> #[trigger] number_at(a, j) == number_at(b, j)
}

/// Whether `i` is the first position from `from` on at which `a` and `b`
/// differ, and `a` holds the lower number there.
pub open spec fn lower_first_at(a: Seq<u32>, b: Seq<u32>, from: int, i: int) -> bool {
    from <= i && number_at(a, i) < number_at(b, i) && agree_between(a, b, from, i)
}

/// The order is decided by the first position at which the numbers differ.
pub proof fn lemma_order_by_first_difference(a: Seq<u32>, b: Seq<u32>, from: int)
    requires
        0 <= from,
    ensures
        numbers_order(a, b, from) == 0 <==> agree_from(a, b, from),
        numbers_order(a, b, from) == -1 <==> exists|i: int| lower_first_at(a, b, from, i),
        numbers_order(a, b, from) == 1 <==> exists|i: int| lower_first_at(b, a, from, i),
        -1 <= numbers_order(a, b, from) <= 1,
    decreases a.len() + b.len() - from,
{
    if from >= a.len() && from >= b.len() {
        assert(agree_from(a, b, from));
    } else if number_at(a, from) < number_at(b, from) {
        assert(lower_first_at(a, b, from, from));
        assert forall|i: int| !lower_first_at(b, a, from, i) by {
            if lower_first_at(b, a, from, i) {
                assert(number_at(b, from) == number_at(a, from));
            }
        }
    } else if number_at(a, from) > number_at(b, from) {
        assert(lower_first_at(b, a, from, from));
        assert forall|i: int| !lower_first_at(a, b, from, i) by {
            if lower_first_at(a, b, from, i) {
                assert(number_at(a, from) == number_at(b, from));
            }
        }
    } else {
        let next = from + 1;
        lemma_order_by_first_difference(a, b, next);
        assert forall|i: int| lower_first_at(a, b, from, i) <==> lower_first_at(a, b, next, i) by {}
        assert forall|i: int| lower_first_at(b, a, from, i) <==> lower_first_at(b, a, next, i) by {}
        if numbers_order(a, b, next) == -1 {
            let i = choose|i: int| lower_first_at(a, b, next, i);
            assert(lower_first_at(a, b, from, i));
        }
        if numbers_order(a, b, next) == 1 {
            let i = choose|i: int| lower_first_at(b, a, next, i);
            assert(lower_first_at(b, a, from, i));
        }
        if exists|i: int| lower_first_at(a, b, from, i) {
            let i = choose|i: int| lower_first_at(a, b, from, i);
            assert(lower_first_at(a, b, next, i));
        }
        if exists|i: int| lower_first_at(b, a, from, i) {
            let i = choose|i: int| lower_first_at(b, a, from, i);
            assert(lower_first_at(b, a, next, i));
        }
    }
}

/// Every version is the same version as itself.
pub proof fn lemma_order_reflexive(a: Seq<char>)
    ensures
        versions_order(a, a) == 0,
{
    lemma_order_by_first_difference(version_numbers(a), version_numbers(a), 0);
}

/// Swapping the two versions turns the order round.
pub proof fn lemma_order_antisymmetric(a: Seq<char>, b: Seq<char>)
    ensures
        versions_order(b, a) == -versions_order(a, b),
{
    let x = version_numbers(a);
    let y = version_numbers(b);
    lemma_order_by_first_difference(x, y, 0);
    lemma_order_by_first_difference(y, x, 0);
    if agree_from(x, y, 0) {
        assert forall|j: int| 0 <= j implies #[trigger] number_at(y, j) == number_at(x, j) by {
            assert(number_at(x, j) == number_at(y, j));
        }
    }
    if agree_from(y, x, 0) {
        assert forall|j: int| 0 <= j implies #[trigger] number_at(x, j) == number_at(y, j) by {
            assert(number_at(y, j) == number_at(x, j));
        }
    }
}

/// Where `a` is not above `b` and `b` is not above `c`, `a` is not above `c`;
/// and it is below `c` where one of the two steps is strict.
pub proof fn lemma_order_transitive(a: Seq<char>, b: Seq<char>, c: Seq<char>)
    requires
        versions_order(a, b) <= 0,
        versions_order(b, c) <= 0,
    ensures
        versions_order(a, c) <= 0,
        versions_order(a, b) < 0 || versions_order(b, c) < 0 ==> versions_order(a, c) < 0,
{
    let x = version_numbers(a);
    let y = version_numbers(b);
    let z = version_numbers(c);
    lemma_order_by_first_difference(x, y, 0);
    lemma_order_by_first_difference(y, z, 0);
    lemma_order_by_first_difference(x, z, 0);
    let xy = numbers_order(x, y, 0);
    let yz = numbers_order(y, z, 0);
    if xy == 0 && yz == 0 {
        assert forall|j: int| 0 <= j implies #[trigger] number_at(x, j) == number_at(z, j) by {
            assert(number_at(x, j) == number_at(y, j));
            assert(number_at(y, j) == number_at(z, j));
        }
    } else if xy == 0 {
        let i = choose|i: int| lower_first_at(y, z, 0, i);
        assert(number_at(x, i) == number_at(y, i));
        assert forall|j: int| 0 <= j < i implies #[trigger] number_at(x, j) == number_at(
            z,
            j,
        ) by {
            assert(number_at(x, j) == number_at(y, j));
            assert(number_at(y, j) == number_at(z, j));
        }
        assert(lower_first_at(x, z, 0, i));
    } else if yz == 0 {
        let i = choose|i: int| lower_first_at(x, y, 0, i);
        assert(number_at(y, i) == number_at(z, i));
        assert forall|j: int| 0 <= j < i implies #[trigger] number_at(x, j) == number_at(
            z,
            j,
        ) by {
            assert(number_at(x, j) == number_at(y, j));
            assert(number_at(y, j) == number_at(z, j));
        }
        assert(lower_first_at(x, z, 0, i));
    } else {
        let i = choose|i: int| lower_first_at(x, y, 0, i);
        let k = choose|k: int| lower_first_at(y, z, 0, k);
        let m = if i <= k {
            i
        } else {
            k
        };
        assert(number_at(x, m) < number_at(z, m)) by {
            if i < k {
                assert(number_at(y, i) == number_at(z, i));
            } else if k < i {
                assert(number_at(x, k) == number_at(y, k));
            }
        }
        assert forall|j: int| 0 <= j < m implies #[trigger] number_at(x, j) == number_at(
            z,
            j,
        ) by {
            assert(number_at(x, j) == number_at(y, j));
            assert(number_at(y, j) == number_at(z, j));
        }
        assert(lower_first_at(x, z, 0, m));
    }
}

/// The numbers of the pieces of `version`.
pub fn numbers_of(version: &Vec<char>) -> (out: Vec<u32>)
    ensures
        out@ == version_numbers(version@),
{
    let pieces = split_on(version, Separator::Char('.'));
    let ghost all = split(version@, Separator::Char('.'));
    let ghost value = |piece: Seq<char>| segment_value(piece);
    let mut out: Vec<u32> = Vec::new();
    let mut i: usize = 0;
    proof {
        assert(all.take(0).map_values(value) == Seq::<u32>::empty());
    }
    while i < pieces.len()
        invariant
            i <= pieces.len(),
            all == vec_views(pieces@),
            value == |piece: Seq<char>| segment_value(piece),
            out@ == all.take(i as int).map_values(value),
        decreases pieces.len() - i,
    {
        let n = match parse_u32(&pieces[i]) {
            Some(n) => n,
            None => 0,
        };
        proof {
            assert(all[i as int] == pieces@[i as int]@);
            assert(all.take(i + 1) == all.take(i as int).push(all[i as int]));
            assert(all.take(i as int).push(all[i as int]).map_values(value) == all.take(
                i as int,
            ).map_values(value).push(value(all[i as int])));
        }
        out.push(n);
        i += 1;
    }
    proof {
        assert(all.take(pieces.len() as int) == all);
    }
    out
}

/// Compares two sequences of numbers, a missing number counting as 0.
pub fn order_of_numbers(a: &Vec<u32>, b: &Vec<u32>) -> (r: i8)
    ensures
        r == numbers_order(a@, b@, 0),
{
    let mut i: usize = 0;
    while i < a.len() || i < b.len()
        invariant
            numbers_order(a@, b@, 0) == numbers_order(a@, b@, i as int),
        decreases a.len() + b.len() - i,
    {
        let x: u32 = if i < a.len() {
            a[i]
        } else {
            0
        };
        let y: u32 = if i < b.len() {
            b[i]
        } else {
            0
        };
        if x < y {
            return -1;
        }
        if x > y {
            return 1;
        }
        i += 1;
    }
    0
}

/// Compares two versions: -1 where `a` is the lower, 1 where it is the higher,
/// 0 where they are the same version.
pub fn version_order(a: &str, b: &str) -> (r: i8)
    ensures
        r == versions_order(a@, b@),
{
    let x = numbers_of(&chars_of(a));
    let y = numbers_of(&chars_of(b));
    order_of_numbers(&x, &y)
}

} // verus!
