//! Dotted paths, by which a script's functions are named.

use vstd::prelude::*;

use crate::watchdog::texts;

verus! {

/// The parts of a path: what stands between its dots. There is one more part than
/// there are dots, and a part may be empty.
pub open spec fn path_parts(path: Seq<char>) -> Seq<Seq<char>>
    decreases path.len(),
{
    if path.len() == 0 {
        seq![seq![]]
    } else {
        let before = path_parts(path.drop_last());
        if path.last() == '.' {
            before.push(seq![])
        } else {
            before.drop_last().push(before.last().push(path.last()))
        }
    }
}

/// Parts with a dot between each two.
pub open spec fn joined(parts: Seq<Seq<char>>) -> Seq<char>
    decreases parts.len(),
{
    if parts.len() == 0 {
        seq![]
    } else if parts.len() == 1 {
        parts[0]
    } else {
        joined(parts.drop_last()).push('.') + parts.last()
    }
}

/// No part of a path has a dot in it, and with a dot between each two the parts
/// are the path again.
pub proof fn law_parts_make_the_path(path: Seq<char>)
    ensures
        path_parts(path).len() > 0,
        joined(path_parts(path)) == path,
        forall|i: int|
            0 <= i < path_parts(path).len() ==> !(#[trigger] path_parts(path)[i]).contains('.'),
    decreases path.len(),
{
    let parts = path_parts(path);
    if path.len() > 0 {
        let before = path_parts(path.drop_last());
        law_parts_make_the_path(path.drop_last());
        if path.last() == '.' {
            assert(parts.drop_last() =~= before);
            assert(joined(parts) =~= path);
        } else {
            assert(parts.drop_last() =~= before.drop_last());
            assert(joined(parts) =~= joined(before).push(path.last()));
            assert(joined(parts) =~= path);
            let last = before.last().push(path.last());
            assert(!before[before.len() - 1].contains('.'));
            if last.contains('.') {
                let k = choose|k: int| 0 <= k < last.len() && last[k] == '.';
                assert(before.last()[k] == '.');
            }
        }
    }
}

/// Splits a path at its dots.
pub fn split_path(path: &str) -> (parts: Vec<String>)
    ensures
        texts(parts@) == path_parts(path@),
        parts@.len() > 0,
{
    let length: usize = path.unicode_len();
    let mut parts: Vec<String> = Vec::new();
    let mut start: usize = 0;
    let mut i: usize = 0;
    assert(path@.subrange(0, 0) =~= seq![]);
    assert(texts(parts@).push(path@.subrange(0, 0)) =~= path_parts(path@.take(0)));
    for c in it: path.chars()
        invariant
            it.seq() == path@,
            i == it.index(),
            path@.len() == length,
            start <= i <= path@.len(),
            texts(parts@).push(path@.subrange(start as int, i as int)) == path_parts(
                path@.take(i as int),
            ),
    {
        let ghost before = parts@;
        let ghost piece = path@.subrange(start as int, i as int);
        assert(path@.take(i + 1).drop_last() =~= path@.take(i as int));
        assert(path@.take(i + 1).last() == c);
        if c == '.' {
            parts.push(path.substring_char(start, i).to_owned());
            start = i + 1;
            assert(texts(parts@) =~= texts(before).push(piece));
            assert(path@.subrange(start as int, i + 1) =~= seq![]);
        } else {
            assert(path@.subrange(start as int, i + 1) =~= piece.push(c));
            assert(texts(before).push(piece).drop_last() =~= texts(before));
        }
        i = i + 1;
    }
    let ghost before = parts@;
    parts.push(path.substring_char(start, i).to_owned());
    assert(texts(parts@) =~= texts(before).push(path@.subrange(start as int, i as int)));
    assert(path@.take(i as int) =~= path@);
    parts
}

} // verus!
