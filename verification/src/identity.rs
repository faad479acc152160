//! Ids stand for objects: what is read from Ruby carries one id in two places just
//! when one object stood in both.

use vstd::prelude::*;

use crate::rb_read::rb_child;
use crate::rb_read::rb_container;
use crate::rb_read::rb_entries;
use crate::rb_read::rb_entry;
use crate::rb_read::rb_item;
use crate::rb_read::rb_items;
use crate::rb_read::rb_pair;
use crate::rb_read::rb_pairs;
use crate::rb_read::rb_shape;
use crate::rb_read::rb_sighting;
use crate::rb_read::rb_tree;
use crate::rb_read::rb_value;
use crate::rb_read::RbEncoding;
use crate::rb_read::RbFault;
use crate::rb_read::RbShape;
use crate::rb_read::RbSighting;
use crate::rb_read::RbTest;
use crate::rb_read::RbWorld;
use crate::rb_round_trip::past_numbers;
use crate::value::JsTree;
use crate::value::MAX_MARSHAL_DEPTH;

verus! {

/// The id that a place of a tree carries: its own, or the one that it refers to.
pub open spec fn carried(t: JsTree) -> Option<nat> {
    match t {
        JsTree::Ref(j) => Some(j),
        JsTree::Bytes { id, .. } => id,
        JsTree::Array { id, .. } => Some(id),
        JsTree::JsSet { id, .. } => Some(id),
        JsTree::Obj { id, .. } => Some(id),
        JsTree::JsMap { id, .. } => Some(id),
        _ => None,
    }
}

/// How many ids have been given out at the end of a tree, if `lo` had been before
/// it; nothing if they were not given out in the order in which objects are met,
/// none left out and none twice, or if a reference names one not given out yet. (A
/// value that turned itself into a binary string has no id.)
pub open spec fn in_order(t: JsTree, lo: nat) -> Option<nat>
    decreases t,
{
    match t {
        JsTree::Ref(j) => if j < lo {
            Some(lo)
        } else {
            None
        },
        JsTree::Bytes { id, .. } => match id {
            None => Some(lo),
            Some(k) => if k == lo {
                Some(lo + 1)
            } else {
                None
            },
        },
        JsTree::Array { id, items } => if id == lo {
            items_in_order(items, lo + 1)
        } else {
            None
        },
        JsTree::JsSet { id, items } => if id == lo {
            items_in_order(items, lo + 1)
        } else {
            None
        },
        JsTree::Obj { id, entries } => if id == lo {
            entries_in_order(entries, lo + 1)
        } else {
            None
        },
        JsTree::JsMap { id, pairs } => if id == lo {
            pairs_in_order(pairs, lo + 1)
        } else {
            None
        },
        _ => Some(lo),
    }
}

pub open spec fn items_in_order(items: Seq<JsTree>, lo: nat) -> Option<nat>
    decreases items,
{
    if items.len() == 0 {
        Some(lo)
    } else {
        match items_in_order(items.drop_last(), lo) {
            Some(mid) => in_order(items.last(), mid),
            None => None,
        }
    }
}

pub open spec fn entries_in_order(entries: Seq<(Seq<char>, JsTree)>, lo: nat) -> Option<nat>
    decreases entries,
{
    if entries.len() == 0 {
        Some(lo)
    } else {
        match entries_in_order(entries.drop_last(), lo) {
            Some(mid) => in_order(entries.last().1, mid),
            None => None,
        }
    }
}

pub open spec fn pairs_in_order(pairs: Seq<(JsTree, JsTree)>, lo: nat) -> Option<nat>
    decreases pairs,
{
    if pairs.len() == 0 {
        Some(lo)
    } else {
        match pairs_in_order(pairs.drop_last(), lo) {
            Some(mid) => match in_order(pairs.last().0, mid) {
                Some(end) => in_order(pairs.last().1, end),
                None => None,
            },
            None => None,
        }
    }
}

/// What a container's contents are read from: an array, or the way through a hash.
pub open spec fn rb_source<V, X>(w: RbWorld<V, X>, v: V) -> Option<V> {
    match rb_shape(w, v) {
        RbShape::SetObject => match (w.to_a)(v) {
            Ok(list) => Some(list),
            Err(_) => None,
        },
        RbShape::Array(list) => Some(list),
        RbShape::JsMap => match (w.pairs)(v) {
            Ok((way, _)) => Some(way),
            Err(_) => None,
        },
        RbShape::Hash(hash) => match (w.pairs)(hash) {
            Ok((way, _)) => Some(way),
            Err(_) => None,
        },
        RbShape::Unknown => None,
    }
}

/// The `i`th value that stands in a container, and what it was written out as.
pub open spec fn rb_part<V, X>(w: RbWorld<V, X>, v: V, t: JsTree, i: nat) -> Option<(V, JsTree)> {
    match rb_source(w, v) {
        None => None,
        Some(source) => match t {
            JsTree::Array { items, .. } => if i < items.len() {
                standing((w.entry)(source, i as usize), items[i as int])
            } else {
                None
            },
            JsTree::JsSet { items, .. } => if i < items.len() {
                standing((w.entry)(source, i as usize), items[i as int])
            } else {
                None
            },
            JsTree::Obj { entries, .. } => if i < entries.len() {
                standing(pair_half((w.pair)(source, i as usize), false), entries[i as int].1)
            } else {
                None
            },
            JsTree::JsMap { pairs, .. } => if i >= 2 * pairs.len() {
                None
            } else if i % 2 == 0 {
                standing(
                    pair_half((w.pair)(source, (i / 2) as usize), true),
                    pairs[i as int / 2].0,
                )
            } else {
                standing(
                    pair_half((w.pair)(source, (i / 2) as usize), false),
                    pairs[i as int / 2].1,
                )
            },
            _ => None,
        },
    }
}

/// The key or the value of a pair.
pub open spec fn pair_half<V, X>(pair: Result<Option<(V, V)>, X>, key: bool) -> Result<V, ()> {
    match pair {
        Ok(Some((k, v))) => Ok(if key {
            k
        } else {
            v
        }),
        _ => Err(()),
    }
}

pub open spec fn standing<V, E>(v: Result<V, E>, t: JsTree) -> Option<(V, JsTree)> {
    match v {
        Ok(u) => Some((u, t)),
        Err(_) => None,
    }
}

/// The value that stood in a place, and what it was written out as. A place is
/// given by the way to it: which value of which value, from the outermost in.
pub open spec fn rb_place<V, X>(
    w: RbWorld<V, X>,
    v: V,
    t: JsTree,
    path: Seq<nat>,
) -> Option<(V, JsTree)>
    decreases path.len(),
{
    if path.len() == 0 {
        Some((v, t))
    } else {
        match rb_part(w, v, t, path[0]) {
            Some((u, s)) => rb_place(w, u, s, path.skip(1)),
            None => None,
        }
    }
}

/// A value whose identity counts: a binary string or a container.
pub open spec fn rb_is_object<V, X>(w: RbWorld<V, X>, v: V) -> bool {
    past_numbers(w, v) && if (w.is)(v, RbTest::String) {
        (w.encoding)(v) == RbEncoding::Binary
    } else {
        (w.is)(v, RbTest::StringLike) ==> ((w.to_str)(v) matches Ok(s) ==> !(w.is)(
            s,
            RbTest::String,
        ))
    }
}

/// Each id stands for the object that the table has under it. An object that is
/// not too deep carries one.
spec fn tabled<V, X>(
    w: RbWorld<V, X>,
    v: V,
    t: JsTree,
    table: Seq<usize>,
    depth: nat,
) -> bool {
    forall|path: Seq<nat>|
        (#[trigger] rb_place(w, v, t, path)) matches Some((u, s)) ==> place_fits(
            w,
            u,
            s,
            table,
            depth + path.len(),
        )
}

spec fn place_fits<V, X>(
    w: RbWorld<V, X>,
    u: V,
    s: JsTree,
    table: Seq<usize>,
    depth: nat,
) -> bool {
    &&& carried(s) matches Some(k) ==> k < table.len() && (w.object_id)(u) == Ok::<usize, X>(
        table[k as int],
    )
    &&& rb_is_object(w, u) && depth < MAX_MARSHAL_DEPTH ==> carried(s) is Some
}

/// The first table is where the second starts.
pub open spec fn extends(table: Seq<usize>, more: Seq<usize>) -> bool {
    table.len() <= more.len() && forall|i: int|
        0 <= i < table.len() ==> #[trigger] table[i] == more[i]
}

proof fn lemma_tabled_grows<V, X>(
    w: RbWorld<V, X>,
    v: V,
    t: JsTree,
    table: Seq<usize>,
    more: Seq<usize>,
    depth: nat,
)
    requires
        tabled(w, v, t, table, depth),
        extends(table, more),
    ensures
        tabled(w, v, t, more, depth),
{
    assert forall|path: Seq<nat>|
        (#[trigger] rb_place(w, v, t, path)) matches Some((u, s)) implies place_fits(
        w,
        rb_place(w, v, t, path).unwrap().0,
        rb_place(w, v, t, path).unwrap().1,
        more,
        depth + path.len(),
    ) by {
        let (u, s) = rb_place(w, v, t, path).unwrap();
        assert(place_fits(w, u, s, table, depth + path.len()));
    }
}

/// A value's place fits, and so do the places within it.
proof fn lemma_tabled<V, X>(
    w: RbWorld<V, X>,
    v: V,
    t: JsTree,
    table: Seq<usize>,
    depth: nat,
)
    requires
        place_fits(w, v, t, table, depth),
        forall|i: nat|
            (#[trigger] rb_part(w, v, t, i)) matches Some((u, s)) ==> tabled(
                w,
                u,
                s,
                table,
                depth + 1,
            ),
    ensures
        tabled(w, v, t, table, depth),
{
    assert forall|path: Seq<nat>|
        (#[trigger] rb_place(w, v, t, path)) matches Some((u, s)) implies place_fits(
        w,
        rb_place(w, v, t, path).unwrap().0,
        rb_place(w, v, t, path).unwrap().1,
        table,
        depth + path.len(),
    ) by {
        if path.len() > 0 {
            let (u, s) = rb_part(w, v, t, path[0]).unwrap();
            assert(tabled(w, u, s, table, depth + 1));
            assert(rb_place(w, u, s, path.skip(1)) is Some);
        }
    }
}

/// The table keeps what it has, and holds nothing twice.
spec fn grows(seen: Seq<usize>, after: Seq<usize>) -> bool {
    extends(seen, after) && after.no_duplicates()
}

proof fn lemma_rb_value_tabled<V, X>(w: RbWorld<V, X>, v: V, seen: Seq<usize>, depth: nat)
    requires
        seen.no_duplicates(),
        depth <= MAX_MARSHAL_DEPTH,
    ensures
        rb_value(w, v, seen, depth) matches Ok((t, after)) ==> {
            &&& grows(seen, after)
            &&& tabled(w, v, t, after, depth)
            &&& in_order(t, seen.len()) == Some(after.len())
        },
    decreases MAX_MARSHAL_DEPTH - depth, 4nat, 0nat,
{
    lemma_rb_container_tabled(w, v, seen, depth);
    if let Ok((t, after)) = rb_value(w, v, seen, depth) {
        if rb_container(w, v, seen, depth) != rb_value(w, v, seen, depth) {
            lemma_sighting(w, v, seen, 0);
            lemma_tabled(w, v, t, after, depth);
        }
    }
}

/// What a sighting does to the table.
proof fn lemma_sighting<V, X>(w: RbWorld<V, X>, v: V, seen: Seq<usize>, depth: nat)
    requires
        seen.no_duplicates(),
    ensures
        rb_sighting(w, v, seen, depth) matches Ok((sighting, after)) ==> {
            &&& grows(seen, after)
            &&& match sighting {
                RbSighting::Again(k) => k < seen.len() && after == seen && (w.object_id)(v) == Ok::<usize, X>(
                    after[k as int],
                ),
                RbSighting::First(k) => k == seen.len() && after.len() == k + 1 && (w.object_id)(v) == Ok::<usize, X>(
                    after[k as int],
                ),
                RbSighting::Cut(_) => depth >= MAX_MARSHAL_DEPTH && after == seen,
            }
        },
{
    if let Ok(oid) = (w.object_id)(v) {
        if seen.contains(oid) {
            let j = seen.index_of(oid);
            assert(0 <= j < seen.len() && seen[j] == oid);
        } else {
            assert(seen.push(oid).no_duplicates());
        }
    }
}

proof fn lemma_rb_container_tabled<V, X>(w: RbWorld<V, X>, v: V, seen: Seq<usize>, depth: nat)
    requires
        seen.no_duplicates(),
        depth <= MAX_MARSHAL_DEPTH,
    ensures
        rb_container(w, v, seen, depth) matches Ok((t, after)) ==> {
            &&& grows(seen, after)
            &&& tabled(w, v, t, after, depth)
            &&& in_order(t, seen.len()) == Some(after.len())
        },
    decreases MAX_MARSHAL_DEPTH - depth, 3nat, 0nat,
{
    let shape = rb_shape(w, v);
    lemma_sighting(w, v, seen, depth);
    if let Ok((t, after)) = rb_container(w, v, seen, depth) {
        let (sighting, opened) = rb_sighting(w, v, seen, depth)->Ok_0;
        if sighting is First {
            let source = rb_source(w, v).unwrap();
            match shape {
                RbShape::SetObject | RbShape::Array(_) => {
                    lemma_rb_items_tabled(w, source, (w.len)(source) as nat, opened, depth);
                },
                RbShape::JsMap => {
                    let n = (w.pairs)(v)->Ok_0.1;
                    lemma_rb_pairs_tabled(w, source, n as nat, opened, depth);
                },
                RbShape::Hash(hash) => {
                    let n = (w.pairs)(hash)->Ok_0.1;
                    lemma_rb_entries_tabled(w, source, n as nat, opened, depth);
                },
                RbShape::Unknown => {},
            }
            assert(grows(opened, after));
            assert(place_fits(w, v, t, after, depth));
            assert forall|i: nat|
                (#[trigger] rb_part(w, v, t, i)) matches Some((u, s)) implies tabled(
                w,
                rb_part(w, v, t, i).unwrap().0,
                rb_part(w, v, t, i).unwrap().1,
                after,
                depth + 1,
            ) by {
                match t {
                    JsTree::Array { items, .. } | JsTree::JsSet { items, .. } => {
                        assert(tabled_item(w, source, items, i as int, after, depth));
                    },
                    JsTree::Obj { entries, .. } => {
                        assert(tabled_entry(w, source, entries, i as int, after, depth));
                    },
                    JsTree::JsMap { pairs, .. } => {
                        let j = i as int / 2;
                        assert(tabled_pair(w, source, pairs, j, after, depth));
                        assert(i == 2 * j || i == 2 * j + 1);
                    },
                    _ => {},
                }
            }
            lemma_tabled(w, v, t, after, depth);
        } else {
            lemma_tabled(w, v, t, after, depth);
        }
    }
}

proof fn lemma_rb_child_tabled<V, X>(w: RbWorld<V, X>, v: V, seen: Seq<usize>, depth: nat)
    requires
        seen.no_duplicates(),
        depth < MAX_MARSHAL_DEPTH,
    ensures
        rb_child(w, v, seen, depth) matches Ok((t, after)) ==> {
            &&& grows(seen, after)
            &&& tabled(w, v, t, after, depth + 1)
            &&& in_order(t, seen.len()) == Some(after.len())
        },
    decreases MAX_MARSHAL_DEPTH - depth, 0nat, 0nat,
{
    lemma_rb_value_tabled(w, v, seen, depth + 1);
}

/// One element of an array, as it was written out.
spec fn tabled_item<V, X>(
    w: RbWorld<V, X>,
    list: V,
    items: Seq<JsTree>,
    i: int,
    table: Seq<usize>,
    depth: nat,
) -> bool {
    (w.entry)(list, i as usize) matches Ok(u) && tabled(w, u, items[i], table, depth + 1)
}

proof fn lemma_rb_items_tabled<V, X>(
    w: RbWorld<V, X>,
    list: V,
    n: nat,
    seen: Seq<usize>,
    depth: nat,
)
    requires
        seen.no_duplicates(),
        depth < MAX_MARSHAL_DEPTH,
    ensures
        rb_items(w, list, n, seen, depth) matches Ok((all, after)) ==> {
            &&& grows(seen, after)
            &&& all.len() == n
            &&& items_in_order(all, seen.len()) == Some(after.len())
            &&& forall|i: int|
                0 <= i < n ==> #[trigger] tabled_item(w, list, all, i, after, depth)
        },
    decreases MAX_MARSHAL_DEPTH - depth, 2nat, n,
{
    if n > 0 {
        let m = (n - 1) as nat;
        lemma_rb_items_tabled(w, list, m, seen, depth);
        if let Ok((all, after)) = rb_items(w, list, n, seen, depth) {
            let (before, s0) = rb_items(w, list, m, seen, depth)->Ok_0;
            let u = (w.entry)(list, m as usize)->Ok_0;
            lemma_rb_child_tabled(w, u, s0, depth);
            assert(rb_item(w, list, m, s0, depth) == rb_child(w, u, s0, depth));
            assert(all.drop_last() =~= before);
            assert forall|i: int| 0 <= i < n implies #[trigger] tabled_item(
                w,
                list,
                all,
                i,
                after,
                depth,
            ) by {
                if i < m {
                    assert(tabled_item(w, list, before, i, s0, depth));
                    let x = (w.entry)(list, i as usize)->Ok_0;
                    lemma_tabled_grows(w, x, before[i], s0, after, depth + 1);
                }
            }
        }
    }
}

/// One pair of a hash, as it was written out.
spec fn tabled_pair<V, X>(
    w: RbWorld<V, X>,
    way: V,
    pairs: Seq<(JsTree, JsTree)>,
    i: int,
    table: Seq<usize>,
    depth: nat,
) -> bool {
    (w.pair)(way, i as usize) matches Ok(Some((k, v))) && tabled(
        w,
        k,
        pairs[i].0,
        table,
        depth + 1,
    ) && tabled(w, v, pairs[i].1, table, depth + 1)
}

proof fn lemma_rb_pairs_tabled<V, X>(
    w: RbWorld<V, X>,
    way: V,
    n: nat,
    seen: Seq<usize>,
    depth: nat,
)
    requires
        seen.no_duplicates(),
        depth < MAX_MARSHAL_DEPTH,
    ensures
        rb_pairs(w, way, n, seen, depth) matches Ok((all, after)) ==> {
            &&& grows(seen, after)
            &&& all.len() <= n
            &&& pairs_in_order(all, seen.len()) == Some(after.len())
            &&& forall|i: int|
                0 <= i < all.len() ==> #[trigger] tabled_pair(w, way, all, i, after, depth)
        },
    decreases MAX_MARSHAL_DEPTH - depth, 2nat, n,
{
    if n > 0 {
        let m = (n - 1) as nat;
        lemma_rb_pairs_tabled(w, way, m, seen, depth);
        if let Ok((all, after)) = rb_pairs(w, way, n, seen, depth) {
            let (before, s0) = rb_pairs(w, way, m, seen, depth)->Ok_0;
            if before.len() == m && rb_pair(w, way, m, s0, depth)->Ok_0.0 is Some {
                let (k, v) = (w.pair)(way, m as usize)->Ok_0.unwrap();
                lemma_rb_child_tabled(w, k, s0, depth);
                let (key, s1) = rb_child(w, k, s0, depth)->Ok_0;
                lemma_rb_child_tabled(w, v, s1, depth);
                lemma_tabled_grows(w, k, key, s1, after, depth + 1);
                assert(all.drop_last() =~= before);
                assert forall|i: int| 0 <= i < all.len() implies #[trigger] tabled_pair(
                    w,
                    way,
                    all,
                    i,
                    after,
                    depth,
                ) by {
                    if i < m {
                        assert(tabled_pair(w, way, before, i, s0, depth));
                        let (a, b) = (w.pair)(way, i as usize)->Ok_0.unwrap();
                        lemma_tabled_grows(w, a, before[i].0, s0, after, depth + 1);
                        lemma_tabled_grows(w, b, before[i].1, s0, after, depth + 1);
                    }
                }
            }
        }
    }
}

/// One entry of a hash, as it was written out.
spec fn tabled_entry<V, X>(
    w: RbWorld<V, X>,
    way: V,
    entries: Seq<(Seq<char>, JsTree)>,
    i: int,
    table: Seq<usize>,
    depth: nat,
) -> bool {
    (w.pair)(way, i as usize) matches Ok(Some((_, v))) && tabled(
        w,
        v,
        entries[i].1,
        table,
        depth + 1,
    )
}

proof fn lemma_rb_entries_tabled<V, X>(
    w: RbWorld<V, X>,
    way: V,
    n: nat,
    seen: Seq<usize>,
    depth: nat,
)
    requires
        seen.no_duplicates(),
        depth < MAX_MARSHAL_DEPTH,
    ensures
        rb_entries(w, way, n, seen, depth) matches Ok((all, after)) ==> {
            &&& grows(seen, after)
            &&& all.len() <= n
            &&& entries_in_order(all, seen.len()) == Some(after.len())
            &&& forall|i: int|
                0 <= i < all.len() ==> #[trigger] tabled_entry(w, way, all, i, after, depth)
        },
    decreases MAX_MARSHAL_DEPTH - depth, 2nat, n,
{
    if n > 0 {
        let m = (n - 1) as nat;
        lemma_rb_entries_tabled(w, way, m, seen, depth);
        if let Ok((all, after)) = rb_entries(w, way, n, seen, depth) {
            let (before, s0) = rb_entries(w, way, m, seen, depth)->Ok_0;
            if before.len() == m && rb_entry(w, way, m, s0, depth)->Ok_0.0 is Some {
                let v = (w.pair)(way, m as usize)->Ok_0.unwrap().1;
                lemma_rb_child_tabled(w, v, s0, depth);
                assert(all.drop_last() =~= before);
                assert forall|i: int| 0 <= i < all.len() implies #[trigger] tabled_entry(
                    w,
                    way,
                    all,
                    i,
                    after,
                    depth,
                ) by {
                    if i < m {
                        assert(tabled_entry(w, way, before, i, s0, depth));
                        let u = (w.pair)(way, i as usize)->Ok_0.unwrap().1;
                        lemma_tabled_grows(w, u, before[i].1, s0, after, depth + 1);
                    }
                }
            }
        }
    }
}

/// The ids of what was read are given out from zero on, in the order in which the
/// objects are met: none is left out, none is given twice, and a reference names
/// an object met before it.
pub proof fn law_ids_are_in_order<V, X>(w: RbWorld<V, X>, v: V)
    ensures
        rb_tree(w, v) matches Ok(t) ==> in_order(t, 0) is Some,
{
    lemma_rb_value_tabled(w, v, seq![], 0);
}

/// Two places of what was read carry the same id just when the same Ruby object
/// stood in both.
pub proof fn law_ids_stand_for_objects<V, X>(
    w: RbWorld<V, X>,
    v: V,
    t: JsTree,
    path: Seq<nat>,
    other: Seq<nat>,
)
    requires
        rb_tree(w, v) == Ok::<JsTree, RbFault<X>>(t),
        rb_place(w, v, t, path) matches Some((_, s)) && carried(s) is Some,
        rb_place(w, v, t, other) matches Some((_, s)) && carried(s) is Some,
    ensures
        ({
            let (a, s) = rb_place(w, v, t, path).unwrap();
            let (b, r) = rb_place(w, v, t, other).unwrap();
            carried(s) == carried(r) <==> (w.object_id)(a) == (w.object_id)(b)
        }),
{
    lemma_rb_value_tabled(w, v, seq![], 0);
    let table = rb_value(w, v, seq![], 0)->Ok_0.1;
    let (a, s) = rb_place(w, v, t, path).unwrap();
    let (b, r) = rb_place(w, v, t, other).unwrap();
    assert(place_fits(w, a, s, table, path.len()));
    assert(place_fits(w, b, r, table, other.len()));
}

/// Wherever a binary string or a container stood, not too deep, the place carries
/// an id.
pub proof fn law_objects_carry_ids<V, X>(w: RbWorld<V, X>, v: V, t: JsTree, path: Seq<nat>)
    requires
        rb_tree(w, v) == Ok::<JsTree, RbFault<X>>(t),
        path.len() < MAX_MARSHAL_DEPTH,
        rb_place(w, v, t, path) matches Some((u, _)) && rb_is_object(w, u),
    ensures
        rb_place(w, v, t, path) matches Some((_, s)) && carried(s) is Some,
{
    lemma_rb_value_tabled(w, v, seq![], 0);
    let table = rb_value(w, v, seq![], 0)->Ok_0.1;
    let (u, s) = rb_place(w, v, t, path).unwrap();
    assert(place_fits(w, u, s, table, path.len()));
}

/// An object that is met for the first time, and not too deep, gets the next id.
/// From then on, whatever else is met, it is a reference to that id at any depth,
/// and takes no further one. One that is too deep is cut off to a text and gets no
/// id, so that no reference can name it.
pub proof fn law_sighting_is_kept<V, X>(
    w: RbWorld<V, X>,
    v: V,
    seen: Seq<usize>,
    depth: nat,
    oid: usize,
    later: Seq<usize>,
    later_depth: nat,
)
    requires
        (w.object_id)(v) == Ok::<usize, X>(oid),
        !seen.contains(oid),
        later.no_duplicates(),
    ensures
        depth < MAX_MARSHAL_DEPTH ==> {
            &&& rb_sighting(w, v, seen, depth) == Ok::<(RbSighting, Seq<usize>), RbFault<X>>(
                (RbSighting::First(seen.len()), seen.push(oid)),
            )
            &&& extends(seen.push(oid), later) ==> rb_sighting(w, v, later, later_depth) == Ok::<
                (RbSighting, Seq<usize>),
                RbFault<X>,
            >((RbSighting::Again(seen.len()), later))
        },
        depth >= MAX_MARSHAL_DEPTH ==> (rb_sighting(w, v, seen, depth) matches Ok((sighting, after))
            ==> sighting is Cut && after == seen && !after.contains(oid)),
{
    if extends(seen.push(oid), later) {
        let n = seen.len() as int;
        assert(seen.push(oid)[n] == later[n]);
        assert(later.contains(oid));
        let j = later.index_of(oid);
        assert(0 <= j < later.len() && later[j] == oid);
    }
}

} // verus!
